//! The virtual machine.
use vstd::prelude::*;

use vstd::string::StrSliceExecFns;

use crate::block::{law_while_loop_jumps, while_loop_code};
use crate::bytecode::{instruction_binop, OPTCODE, BINOP};
use crate::format_for_print::{format_for_print, int_text, int_to_string, print_text, FloatTexts};
use crate::math_operators::{evaluate, evaluate_binop, BinopOutcome, Evaluation};
use crate::value::{lemma_field_views, lemma_views, views, StackValue, Val};
use crate::SpecialFunctions;

verus! {

/// A fatal runtime error: the machine stops at once.
#[derive(PartialEq, Eq, Structural, Clone, Copy, Debug)]
pub enum VmError {
    /// A variable id was read or assigned before any definition bound it.
    UnboundVariable { id: usize },
    /// An instruction needed more values than the stack held.
    StackUnderflow,
    /// An operand had the wrong shape for the operation.
    TypeMismatch,
    /// Integer division or remainder by zero.
    DivisionByZero,
    /// An integer result does not fit in 64 bits.
    IntegerOverflow,
    /// An array index outside the array.
    IndexOutOfBounds,
    /// An object has no field of the given name.
    FieldNotFound,
    /// A call by name that the linker did not resolve.
    UnresolvedCall,
    /// A `Break` or `Continue` that was not lowered to jumps.
    UnloweredBreakOrContinue,
    /// A jump to a place outside the instructions.
    JumpOutOfRange,
    /// A random draw from an empty range.
    EmptyRandomRange,
    /// A return whose call was made at another loop depth.
    MismatchedReturn,
    /// A host answer that no request asked for.
    UnexpectedAnswer,
    /// A step was asked for while a host request was still unanswered.
    AwaitingAnswer,
}

/// A place to return to: the index of the call instruction and the loop depth it was made at.
#[derive(Debug, Clone)]
pub struct CallStackItem {
    pub optode_index: usize,
    pub function_name: Option<String>,
    pub depth: usize,
}

/// One active counted loop: where its instruction stands in the enclosing code, the program
/// counter inside its body, and the runs of the body still to go, this one included.
pub struct LoopFrame {
    pub at: usize,
    pub pc: usize,
    pub remaining: i64,
}

/// Work that only the host can do.
#[derive(Debug)]
pub enum HostRequest {
    /// A line of input; answer with a string value.
    Input,
    /// The decimal text of a float (Rust's `Display` of it); answer with `supply_float_text`.
    FloatText { bits: u64 },
    /// A binary operator applied to operands of which at least one is a float; answer with the
    /// result value.
    FloatArithmetic { op: BINOP, left: StackValue, right: StackValue },
}

/// What one step did.
#[derive(Debug)]
pub enum Step {
    /// An instruction ran.
    Continue,
    /// A print instruction ran; the host shows the text.
    Print { text: String },
    /// The machine waits for the host; no instruction has completed.
    Request(HostRequest),
    /// The program has ended.
    Halted,
}

/// The three falsy values: `false`, the integer zero and the empty string.
pub open spec fn falsy(v: Val) -> bool {
    v == Val::Bool(false) || v == Val::Int(0) || v == Val::Str(Seq::empty())
}

/// The machine's state: the evaluation stack, the variable table indexed by id, the call stack,
/// the active counted loops and the observation buffer.
pub struct VM {
    pub(crate) stack: Vec<StackValue>,
    pub(crate) variables: Vec<Option<StackValue>>,
    pub(crate) testing_stack: Vec<StackValue>,
    pub(crate) call_stack: Vec<CallStackItem>,
    frames: Vec<LoopFrame>,
    pc: usize,
    halted: bool,
    awaiting: bool,
    texts: FloatTexts,
}

impl VM {
    /// The float-text table is well formed.
    pub closed spec fn wf(self) -> bool {
        self.texts.wf()
    }

    /// The evaluation stack, bottom first.
    pub closed spec fn stack_view(self) -> Seq<Val> {
        views(self.stack@)
    }

    /// The value bound to a variable id, if any.
    pub closed spec fn var(self, id: int) -> Option<Val> {
        if 0 <= id < self.variables@.len() && self.variables@[id] is Some {
            Some(self.variables@[id].unwrap().view())
        } else {
            None
        }
    }

    /// The observation buffer, oldest first.
    pub closed spec fn testing_view(self) -> Seq<Val> {
        views(self.testing_stack@)
    }

    /// The return places, oldest first, as (call index, loop depth).
    pub closed spec fn calls(self) -> Seq<(int, int)> {
        self.call_stack@.map_values(|c: CallStackItem| (c.optode_index as int, c.depth as int))
    }

    /// The program counter in the program's own instructions.
    pub closed spec fn top_pc(self) -> int {
        self.pc as int
    }

    /// The active counted loops, outermost first, as (index of the loop instruction, program
    /// counter in the body, runs of the body still to go).
    pub closed spec fn loops(self) -> Seq<(int, int, int)> {
        self.frames@.map_values(|f: LoopFrame| (f.at as int, f.pc as int, f.remaining as int))
    }

    /// The number of active counted loops.
    pub open spec fn depth(self) -> int {
        self.loops().len() as int
    }

    /// The program has ended.
    pub closed spec fn is_halted(self) -> bool {
        self.halted
    }

    /// The machine waits for the host to answer a request.
    pub closed spec fn is_awaiting(self) -> bool {
        self.awaiting
    }

    /// The float texts the host has supplied.
    pub closed spec fn float_texts(self) -> Map<u64, Seq<char>> {
        self.texts@
    }

    /// A machine with nothing on its stacks, no variables, at the first instruction.
    pub fn new() -> (r: VM)
        ensures
            r.wf(),
            r.stack_view() == Seq::<Val>::empty(),
            r.testing_view() == Seq::<Val>::empty(),
            r.calls() == Seq::<(int, int)>::empty(),
            forall|id: int| r.var(id) is None,
            r.top_pc() == 0,
            r.loops() == Seq::<(int, int, int)>::empty(),
            !r.is_halted(),
            !r.is_awaiting(),
    {
        let r = VM {
            stack: Vec::new(),
            variables: Vec::new(),
            testing_stack: Vec::new(),
            call_stack: Vec::new(),
            frames: Vec::new(),
            pc: 0,
            halted: false,
            awaiting: false,
            texts: FloatTexts::new(),
        };
        proof {
            assert(r.stack_view() =~= Seq::<Val>::empty());
            assert(r.testing_view() =~= Seq::<Val>::empty());
            assert(r.calls() =~= Seq::<(int, int)>::empty());
            assert(r.loops() =~= Seq::<(int, int, int)>::empty());
        }
        r
    }

    /// Whether the program has ended.
    pub fn halted(&self) -> (r: bool)
        ensures
            r == self.is_halted(),
    {
        self.halted
    }

    /// Whether the machine waits for the host to answer a request.
    pub fn awaiting_answer(&self) -> (r: bool)
        ensures
            r == self.is_awaiting(),
    {
        self.awaiting
    }

    /// Pushes a value.
    pub fn push_stackvalue(&mut self, stackvalue: StackValue)
        ensures
            final(self).stack_view() == old(self).stack_view().push(stackvalue.view()),
            final(self).same_except_stack(*old(self)),
            final(self).fields_except_stack(*old(self)),
    {
        let ghost before = self.stack@;
        self.stack.push(stackvalue);
        proof {
            lemma_views_push(before, stackvalue);
        }
    }

    /// The variable table is unchanged.
    pub closed spec fn keeps_variables(self, o: VM) -> bool {
        self.variables == o.variables
    }

    /// The fields other than the evaluation stack are unchanged.
    pub closed spec fn fields_except_stack(self, o: VM) -> bool {
        &&& self.variables == o.variables
        &&& self.fields_except_data(o)
    }

    /// The fields other than the evaluation stack and the variable table are unchanged.
    pub closed spec fn fields_except_data(self, o: VM) -> bool {
        &&& self.testing_stack == o.testing_stack
        &&& self.call_stack == o.call_stack
        &&& self.frames == o.frames
        &&& self.pc == o.pc
        &&& self.halted == o.halted
        &&& self.awaiting == o.awaiting
        &&& self.texts == o.texts
    }

    /// Everything but the evaluation stack is unchanged.
    pub open spec fn same_except_stack(self, o: VM) -> bool {
        &&& forall|j: int| #[trigger] self.var(j) == o.var(j)
        &&& self.same_except_data(o)
    }

    /// Everything but the evaluation stack and the variable table is unchanged.
    pub open spec fn same_except_data(self, o: VM) -> bool {
        &&& self.testing_view() == o.testing_view()
        &&& self.calls() == o.calls()
        &&& self.loops() == o.loops()
        &&& self.depth() == o.depth()
        &&& self.top_pc() == o.top_pc()
        &&& self.is_halted() == o.is_halted()
        &&& self.is_awaiting() == o.is_awaiting()
        &&& self.float_texts() == o.float_texts()
        &&& self.wf() == o.wf()
    }

    /// Pops the top value; fatal when the stack is empty.
    pub fn pop(&mut self) -> (r: Result<StackValue, VmError>)
        ensures
            old(self).stack_view().len() == 0 ==> r == Err::<StackValue, VmError>(VmError::StackUnderflow)
                && final(self).stack_view() == old(self).stack_view(),
            old(self).stack_view().len() > 0 ==> r is Ok && r.unwrap().view() == old(self).stack_view().last()
                && final(self).stack_view() == old(self).stack_view().drop_last(),
            final(self).same_except_stack(*old(self)),
            final(self).fields_except_stack(*old(self)),
    {
        proof {
            lemma_views(self.stack@);
        }
        let ghost before = self.stack@;
        match self.stack.pop() {
            Some(v) => {
                proof {
                    assert(before.drop_last() =~= self.stack@);
                    lemma_views_push(self.stack@, v);
                    assert(before =~= self.stack@.push(v));
                }
                Ok(v)
            },
            None => Err(VmError::StackUnderflow),
        }
    }
}

impl VM {
    /// Binds a value to a variable id, growing the table as needed.
    fn bind(&mut self, id: usize, v: StackValue)
        ensures
            final(self).var(id as int) == Some(v.view()),
            forall|j: int| j != id ==> final(self).var(j) == old(self).var(j),
            final(self).stack == old(self).stack,
            final(self).same_except_data(*old(self)),
            final(self).fields_except_data(*old(self)),
    {
        while self.variables.len() <= id
            invariant
                self.variables@.len() >= old(self).variables@.len(),
                forall|j: int| 0 <= j < old(self).variables@.len() ==> #[trigger] self.variables@[j] == old(self).variables@[j],
                forall|j: int| old(self).variables@.len() <= j < self.variables@.len() ==> #[trigger] self.variables@[j] is None,
                self.stack == old(self).stack,
                self.same_except_data(*old(self)),
                self.fields_except_data(*old(self)),
            decreases id + 1 - self.variables@.len(),
        {
            self.variables.push(None);
        }
        self.variables.set(id, Some(v));
        proof {
            assert forall|j: int| j != id implies #[trigger] self.var(j) == old(self).var(j) by {
                if 0 <= j < old(self).variables@.len() {
                } else if 0 <= j < self.variables@.len() {
                    assert(self.variables@[j] is None);
                }
            }
        }
    }

    /// A copy of the value bound to a variable id; fatal when it is unbound.
    fn read_var(&self, id: usize) -> (r: Result<StackValue, VmError>)
        ensures
            self.var(id as int) is None ==> r == Err::<StackValue, VmError>(VmError::UnboundVariable { id }),
            self.var(id as int) is Some ==> r is Ok && r.unwrap().view() == self.var(id as int).unwrap(),
    {
        if id < self.variables.len() {
            match &self.variables[id] {
                Some(v) => Ok(v.copy_value()),
                None => Err(VmError::UnboundVariable { id }),
            }
        } else {
            Err(VmError::UnboundVariable { id })
        }
    }

    /// Moves the top value (or, with `duplicate_stackvalue`, a copy of it) to the observation
    /// buffer.
    pub fn push_to_testing_stack(&mut self, duplicate_stackvalue: bool) -> (r: Result<(), VmError>)
        ensures
            (r is Err) == (old(self).stack_view().len() == 0),
            r is Err ==> r == Err::<(), VmError>(VmError::StackUnderflow),
            r is Ok ==> final(self).testing_view() == old(self).testing_view().push(old(self).stack_view().last()),
            r is Ok ==> final(self).stack_view() == if duplicate_stackvalue {
                old(self).stack_view()
            } else {
                old(self).stack_view().drop_last()
            },
            old(self).wf() ==> final(self).wf(),
            final(self).float_texts() == old(self).float_texts(),
            final(self).top_pc() == old(self).top_pc(),
            final(self).depth() == old(self).depth(),
            final(self).calls() == old(self).calls(),
            final(self).is_halted() == old(self).is_halted(),
            final(self).is_awaiting() == old(self).is_awaiting(),
            final(self).loops() == old(self).loops(),
            forall|j: int| #[trigger] final(self).var(j) == old(self).var(j),
            final(self).keeps_variables(*old(self)),
    {
        proof {
            lemma_views(self.stack@);
        }
        if self.stack.len() == 0 {
            return Err(VmError::StackUnderflow);
        }
        let v = if duplicate_stackvalue {
            self.stack[self.stack.len() - 1].copy_value()
        } else {
            match self.pop() {
                Ok(v) => v,
                Err(e) => return Err(e),
            }
        };
        let ghost before = self.testing_stack@;
        self.testing_stack.push(v);
        proof {
            lemma_views_push(before, v);
        }
        Ok(())
    }

    /// Pops a value and says whether a conditional jump is taken: exactly for `false`, the
    /// integer zero and the empty string.
    pub fn must_jump(&mut self) -> (r: Result<bool, VmError>)
        ensures
            (r is Err) == (old(self).stack_view().len() == 0),
            r is Ok ==> r.unwrap() == falsy(old(self).stack_view().last())
                && final(self).stack_view() == old(self).stack_view().drop_last(),
            final(self).same_except_stack(*old(self)),
            final(self).fields_except_stack(*old(self)),
    {
        match self.pop() {
            Ok(v) => {
                let j = match &v {
                    StackValue::Bool { value } => !*value,
                    StackValue::Int { value } => *value == 0,
                    StackValue::String { value } => value.as_str().unicode_len() == 0,
                    _ => false,
                };
                proof {
                    if let StackValue::String { value } = v {
                        if value@.len() == 0 {
                            assert(value@ =~= Seq::<char>::empty());
                        }
                    }
                }
                Ok(j)
            },
            Err(e) => Err(e),
        }
    }

    /// Pops a value and binds it to a variable id.
    pub fn define_var(&mut self, id: usize) -> (r: Result<(), VmError>)
        ensures
            (r is Err) == (old(self).stack_view().len() == 0),
            r is Err ==> r == Err::<(), VmError>(VmError::StackUnderflow),
            r is Ok ==> final(self).stack_view() == old(self).stack_view().drop_last()
                && final(self).var(id as int) == Some(old(self).stack_view().last())
                && forall|j: int| j != id ==> final(self).var(j) == old(self).var(j),
            final(self).same_except_data(*old(self)),
            final(self).fields_except_data(*old(self)),
    {
        let v = match self.pop() {
            Ok(v) => v,
            Err(e) => return Err(e),
        };
        self.bind(id, v);
        Ok(())
    }

    /// Binds a given value to a variable id.
    pub fn define_var_with_stackvalue(&mut self, id: usize, value: StackValue)
        ensures
            final(self).var(id as int) == Some(value.view()),
            forall|j: int| j != id ==> final(self).var(j) == old(self).var(j),
            final(self).stack_view() == old(self).stack_view(),
            final(self).same_except_data(*old(self)),
            final(self).fields_except_data(*old(self)),
    {
        self.bind(id, value);
    }

    /// Pops a value and overwrites the binding of a variable id; fatal when it is unbound.
    /// Running it on an unbound variable is a fatal program error, which `requires` leaves out.
    pub fn assign_var(&mut self, id: usize) -> (r: Result<(), VmError>)
        requires
            old(self).var(id as int) is Some,
        ensures
            old(self).stack_view().len() == 0 ==> r == Err::<(), VmError>(VmError::StackUnderflow),
            old(self).stack_view().len() > 0 && old(self).var(id as int) is None ==> r == Err::<(), VmError>(
                VmError::UnboundVariable { id },
            ),
            (r is Ok) == (old(self).stack_view().len() > 0 && old(self).var(id as int) is Some),
            r is Ok ==> final(self).stack_view() == old(self).stack_view().drop_last()
                && final(self).var(id as int) == Some(old(self).stack_view().last())
                && forall|j: int| j != id ==> final(self).var(j) == old(self).var(j),
            final(self).same_except_data(*old(self)),
            final(self).fields_except_data(*old(self)),
    {
        self.assign_var_checked(id)
    }

    /// Pops a value and overwrites the binding of a variable id; fatal when it is unbound.
    /// Every fault, an unbound variable included, comes back as an error value: the form a step uses.
    fn assign_var_checked(&mut self, id: usize) -> (r: Result<(), VmError>)
        ensures
            old(self).stack_view().len() == 0 ==> r == Err::<(), VmError>(VmError::StackUnderflow),
            old(self).stack_view().len() > 0 && old(self).var(id as int) is None ==> r == Err::<(), VmError>(
                VmError::UnboundVariable { id },
            ),
            (r is Ok) == (old(self).stack_view().len() > 0 && old(self).var(id as int) is Some),
            r is Ok ==> final(self).stack_view() == old(self).stack_view().drop_last()
                && final(self).var(id as int) == Some(old(self).stack_view().last())
                && forall|j: int| j != id ==> final(self).var(j) == old(self).var(j),
            final(self).same_except_data(*old(self)),
            final(self).fields_except_data(*old(self)),
    {
        let v = match self.pop() {
            Ok(v) => v,
            Err(e) => return Err(e),
        };
        if id < self.variables.len() && self.variables[id].is_some() {
            self.bind(id, v);
            Ok(())
        } else {
            Err(VmError::UnboundVariable { id })
        }
    }

    /// Pushes a copy of the value bound to a variable id; fatal when it is unbound.
    pub fn load_var(&mut self, id: usize) -> (r: Result<(), VmError>)
        ensures
            old(self).var(id as int) is None ==> r == Err::<(), VmError>(VmError::UnboundVariable { id }),
            old(self).var(id as int) is Some ==> r is Ok && final(self).stack_view() == old(self).stack_view().push(
                old(self).var(id as int).unwrap(),
            ),
            final(self).same_except_stack(*old(self)),
            final(self).fields_except_stack(*old(self)),
    {
        match self.read_var(id) {
            Ok(v) => {
                self.push_stackvalue(v);
                Ok(())
            },
            Err(e) => Err(e),
        }
    }

    /// Pops `count` values and pushes them as one array, in the order they were pushed.
    pub fn create_array(&mut self, count: usize) -> (r: Result<(), VmError>)
        ensures
            (r is Err) == (old(self).stack_view().len() < count),
            r is Err ==> r == Err::<(), VmError>(VmError::StackUnderflow),
            r is Ok ==> final(self).stack_view() == old(self).stack_view().subrange(
                0,
                old(self).stack_view().len() - count,
            ).push(Val::Array(old(self).stack_view().subrange(old(self).stack_view().len() - count, old(self).stack_view().len() as int))),
            final(self).same_except_stack(*old(self)),
            final(self).fields_except_stack(*old(self)),
    {
        proof {
            lemma_views(self.stack@);
        }
        if self.stack.len() < count {
            return Err(VmError::StackUnderflow);
        }
        let ghost before = self.stack@;
        let items = self.stack.split_off(self.stack.len() - count);
        proof {
            lemma_views(items@);
            lemma_views(self.stack@);
            assert(views(items@) =~= views(before).subrange(before.len() - count, before.len() as int));
            assert(views(self.stack@) =~= views(before).subrange(0, before.len() - count));
        }
        self.push_stackvalue(StackValue::Array { items });
        Ok(())
    }

    /// Pops one value per field name and pushes an object whose fields take the names in
    /// declaration order and the values in the order they were pushed.
    pub fn create_object(&mut self, field_names: &Vec<String>) -> (r: Result<(), VmError>)
        ensures
            (r is Err) == (old(self).stack_view().len() < field_names@.len()),
            r is Err ==> r == Err::<(), VmError>(VmError::StackUnderflow),
            r is Ok ==> ({
                let n = field_names@.len() as int;
                let s = old(self).stack_view();
                final(self).stack_view() == s.subrange(0, s.len() - n).push(
                    Val::Object(Seq::new(n as nat, |i: int| (field_names@[i]@, s[s.len() - n + i]))),
                )
            }),
            final(self).same_except_stack(*old(self)),
            final(self).fields_except_stack(*old(self)),
    {
        proof {
            lemma_views(self.stack@);
        }
        let n = field_names.len();
        if self.stack.len() < n {
            return Err(VmError::StackUnderflow);
        }
        let ghost before = self.stack@;
        let values = self.stack.split_off(self.stack.len() - n);
        let mut fields: Vec<crate::value::ObjectField> = Vec::new();
        let mut i: usize = 0;
        while i < n
            invariant
                n == field_names@.len(),
                before.len() >= n,
                values@.len() == n,
                values@ == before.subrange(before.len() - n, before.len() as int),
                i <= n,
                fields@.len() == i,
                forall|j: int| 0 <= j < i ==> (#[trigger] fields@[j]).name@ == field_names@[j]@
                    && fields@[j].value.view() == values@[j].view(),
            decreases n - i,
        {
            fields.push(crate::value::ObjectField { name: field_names[i].clone(), value: values[i].copy_value() });
            i = i + 1;
        }
        proof {
            crate::value::lemma_field_views(fields@);
            lemma_views(self.stack@);
            assert(views(self.stack@) =~= views(before).subrange(0, before.len() - n));
            let s = views(before);
            assert(crate::value::field_views(fields@) =~= Seq::new(n as nat, |i: int| (field_names@[i]@, s[s.len() - n + i])));
        }
        self.push_stackvalue(StackValue::Object { fields });
        Ok(())
    }

    /// Pops an object and pushes the value of its first field of the given name.
    pub fn get_object_field(&mut self, field_name: &String) -> (r: Result<(), VmError>)
        ensures
            get_field_post(*old(self), *final(self), field_name@, r),
            final(self).same_except_stack(*old(self)),
            final(self).fields_except_stack(*old(self)),
    {
        let object = match self.pop() {
            Ok(v) => v,
            Err(e) => return Err(e),
        };
        match object {
            StackValue::Object { fields } => {
                let ghost fs = crate::value::field_views(fields@);
                proof {
                    crate::value::lemma_field_views(fields@);
                }
                let mut k: usize = 0;
                while k < fields.len()
                    invariant
                        fs == crate::value::field_views(fields@),
                        fs.len() == fields@.len(),
                        forall|j: int| 0 <= j < fs.len() ==> #[trigger] fs[j] == (fields@[j].name@, fields@[j].value.view()),
                        k <= fields@.len(),
                        forall|j: int| 0 <= j < k ==> fs[j].0 != field_name@,
                    ensures
                        k <= fields@.len(),
                        forall|j: int| 0 <= j < k ==> fs[j].0 != field_name@,
                        k < fields@.len() ==> fs[k as int].0 == field_name@,
                    decreases fields@.len() - k,
                {
                    if fields[k].name == *field_name {
                        break;
                    }
                    k = k + 1;
                }
                if k < fields.len() {
                    proof {
                        assert forall|k2: int|
                            0 <= k2 < fs.len() && fs[k2].0 == field_name@ && (forall|j: int| 0 <= j < k2 ==> fs[j].0 != field_name@)
                            implies k2 == k by {
                            if k2 > k {
                                assert(fs[k as int].0 == field_name@);
                            }
                        }
                    }
                    let v = fields[k].value.copy_value();
                    self.push_stackvalue(v);
                    Ok(())
                } else {
                    Err(VmError::FieldNotFound)
                }
            },
            _ => Err(VmError::TypeMismatch),
        }
    }
}

/// The program counter in the code that runs now: the program's own instructions, or the
/// body of the innermost active loop.
pub open spec fn cur_pc(m: VM) -> int {
    if m.depth() == 0 {
        m.top_pc()
    } else {
        m.loops().last().1
    }
}

/// The operands of a binary operator: the two top values, the lower one on the left.
pub open spec fn operands(m: VM) -> (Val, Val) {
    let s = m.stack_view();
    (s[s.len() - 2], s[s.len() - 1])
}

/// What a binary operator comes to on the two top values.
pub open spec fn arith_eval(m: VM, op: BINOP) -> Evaluation {
    evaluate(op, operands(m).0, operands(m).1, m.float_texts())
}

/// An operator with a value result replaces its operands with it and moves on.
pub open spec fn arith_value_post(m0: VM, m1: VM, op: BINOP, pc: usize, r: Result<Step, VmError>) -> bool {
    let s = m0.stack_view();
    arith_eval(m0, op) is Value ==> (r matches Ok(Step::Continue)) && m1.stack_view() == s.subrange(0, s.len() - 2).push(
        arith_eval(m0, op)->Value_0,
    ) && !m1.is_awaiting() && cur_pc(m1) == pc + 1
}

/// An operator that faults stops the machine with that fault.
pub open spec fn arith_fault_post(m0: VM, op: BINOP, r: Result<Step, VmError>) -> bool {
    arith_eval(m0, op) is Fault ==> r == Err::<Step, VmError>(arith_eval(m0, op)->Fault_0)
}

/// An operator on a float hands both operands to the host and waits for the result.
pub open spec fn arith_host_post(m0: VM, m1: VM, op: BINOP, r: Result<Step, VmError>) -> bool {
    let s = m0.stack_view();
    arith_eval(m0, op) is FloatArithmetic ==> (r matches Ok(Step::Request(HostRequest::FloatArithmetic { op: o, left, right }))
        && o == op && left.view() == operands(m0).0 && right.view() == operands(m0).1)
        && m1.is_awaiting() && m1.stack_view() == s.subrange(0, s.len() - 2) && cur_pc(m1) == cur_pc(m0)
}

/// An operator that needs a float's text asks for it and changes nothing else.
pub open spec fn arith_text_post(m0: VM, m1: VM, op: BINOP, r: Result<Step, VmError>) -> bool {
    arith_eval(m0, op) is NeedFloatText ==> (r matches Ok(Step::Request(HostRequest::FloatText { bits }))
        && bits == arith_eval(m0, op)->NeedFloatText_0) && !m0.float_texts().contains_key(arith_eval(m0, op)->NeedFloatText_0)
        && m1.stack_view() == m0.stack_view() && cur_pc(m1) == cur_pc(m0) && !m1.is_awaiting()
}

/// What a builtin operation does, taking the machine from `m0` to `m1`.
pub open spec fn special_post(m0: VM, m1: VM, function: SpecialFunctions, pc: usize, r: Result<Step, VmError>) -> bool {
    let s = m0.stack_view();
    let n = s.len();
    let next = cur_pc(m1) == pc + 1;
    match function {
        SpecialFunctions::Print { newline } => if n == 0 {
            r == Err::<Step, VmError>(VmError::StackUnderflow)
        } else {
            match print_text(s.last(), newline, m0.float_texts()) {
                Some(t) => (r matches Ok(Step::Print { text }) && text@ == t) && m1.stack_view() == s.drop_last() && next,
                None => (r matches Ok(Step::Request(HostRequest::FloatText { bits })) && !m0.float_texts().contains_key(bits))
                    && m1.stack_view() == s && cur_pc(m1) == cur_pc(m0),
            }
        },
        SpecialFunctions::Input => (r matches Ok(Step::Request(HostRequest::Input))) && m1.is_awaiting()
            && m1.stack_view() == s && cur_pc(m1) == cur_pc(m0),
        SpecialFunctions::Random => {
            let ok = n >= 2 && s[n - 1] is Int && s[n - 2] is Int && s[n - 2]->Int_0 < s[n - 1]->Int_0;
            &&& (r is Ok) == ok
            &&& ok ==> (r matches Ok(Step::Continue)) && next && m1.stack_view().len() == n - 1
                && m1.stack_view().drop_last() == s.subrange(0, n - 2)
                && m1.stack_view().last() is Int
                && s[n - 2]->Int_0 <= m1.stack_view().last()->Int_0 < s[n - 1]->Int_0
        },
        SpecialFunctions::Length => if n == 0 {
            r == Err::<Step, VmError>(VmError::StackUnderflow)
        } else {
            match length_spec(s.last(), m0.float_texts()) {
                Some(len) => if len <= i64::MAX {
                    (r matches Ok(Step::Continue)) && m1.stack_view() == s.drop_last().push(Val::Int(len)) && next
                } else {
                    r == Err::<Step, VmError>(VmError::IntegerOverflow)
                },
                None => (r matches Ok(Step::Request(HostRequest::FloatText { bits })) && !m0.float_texts().contains_key(bits))
                    && m1.stack_view() == s && cur_pc(m1) == cur_pc(m0),
            }
        },
    }
}

/// Popping a value and binding it to `id`, then moving to the next instruction.
pub open spec fn bind_post(m0: VM, m1: VM, id: usize, pc: int, r: Result<Step, VmError>) -> bool {
    let s = m0.stack_view();
    if s.len() == 0 {
        r == Err::<Step, VmError>(VmError::StackUnderflow)
    } else {
        &&& r matches Ok(Step::Continue)
        &&& m1.stack_view() == s.drop_last()
        &&& m1.var(id as int) == Some(s.last())
        &&& forall|j: int| j != id ==> m1.var(j) == m0.var(j)
        &&& cur_pc(m1) == pc + 1
    }
}

/// Popping a value and overwriting the binding of `id`, then moving on.
pub open spec fn assign_post(m0: VM, m1: VM, id: usize, pc: int, r: Result<Step, VmError>) -> bool {
    let s = m0.stack_view();
    if s.len() == 0 {
        r == Err::<Step, VmError>(VmError::StackUnderflow)
    } else if m0.var(id as int) is None {
        r == Err::<Step, VmError>(VmError::UnboundVariable { id })
    } else {
        bind_post(m0, m1, id, pc, r)
    }
}

/// Writing the popped value into the first field named `name` of object variable `id`.
pub open spec fn set_field_post(m0: VM, m1: VM, id: usize, name: Seq<char>, r: Result<(), VmError>) -> bool {
    let s = m0.stack_view();
    if s.len() == 0 {
        r == Err::<(), VmError>(VmError::StackUnderflow)
    } else {
        match m0.var(id as int) {
            None => r == Err::<(), VmError>(VmError::UnboundVariable { id }),
            Some(Val::Object(fs)) => if exists|k: int| 0 <= k < fs.len() && fs[k].0 == name {
                let k = choose|k: int|
                    0 <= k < fs.len() && fs[k].0 == name && forall|j: int| 0 <= j < k ==> fs[j].0 != name;
                &&& r is Ok
                &&& m1.stack_view() == s.drop_last()
                &&& m1.var(id as int) == Some(Val::Object(fs.update(k, (fs[k].0, s.last()))))
                &&& forall|j: int| j != id ==> m1.var(j) == m0.var(j)
            } else {
                r == Err::<(), VmError>(VmError::FieldNotFound)
            },
            Some(_) => r == Err::<(), VmError>(VmError::TypeMismatch),
        }
    }
}

/// Reading the first field named `name` of the popped object.
pub open spec fn get_field_post(m0: VM, m1: VM, name: Seq<char>, r: Result<(), VmError>) -> bool {
    let s = m0.stack_view();
    if s.len() == 0 {
        r == Err::<(), VmError>(VmError::StackUnderflow)
    } else {
        match s.last() {
            Val::Object(fs) => if exists|k: int| 0 <= k < fs.len() && fs[k].0 == name {
                let k = choose|k: int|
                    0 <= k < fs.len() && fs[k].0 == name && forall|j: int| 0 <= j < k ==> fs[j].0 != name;
                r is Ok && m1.stack_view() == s.drop_last().push(fs[k].1)
            } else {
                r == Err::<(), VmError>(VmError::FieldNotFound)
            },
            _ => r == Err::<(), VmError>(VmError::TypeMismatch),
        }
    }
}

/// The result of a step as the result of the operation it ran.
pub open spec fn unlift(r: Result<Step, VmError>) -> Result<(), VmError> {
    match r {
        Ok(_) => Ok(()),
        Err(e) => Err(e),
    }
}

/// A step that succeeded moved to the next instruction.
pub open spec fn moved_on(m1: VM, pc: int, r: Result<Step, VmError>) -> bool {
    r is Ok ==> (r matches Ok(Step::Continue)) && cur_pc(m1) == pc + 1
}

/// What one step does with the instruction at the program counter of the code that runs now,
/// taking the machine from `m0` to `m1`.
pub open spec fn step_post(m0: VM, m1: VM, program: Seq<OPTCODE>, r: Result<Step, VmError>) -> bool {
    let pc = cur_pc(m0);
    let s = m0.stack_view();
    if pc >= program.len() {
        true
    } else {
        match program[pc] {
            OPTCODE::Jump { steps } => pc + 1 + steps <= usize::MAX ==> (r matches Ok(Step::Continue))
                && cur_pc(m1) == pc + 1 + steps && m1.stack_view() == s,
            OPTCODE::JumpBack { steps } => steps <= pc + 1 ==> (r matches Ok(Step::Continue))
                && cur_pc(m1) == pc + 1 - steps && m1.stack_view() == s,
            OPTCODE::JumpIfFalse { steps } => s.len() > 0 && pc + 1 + steps <= usize::MAX
                ==> (r matches Ok(Step::Continue)) && m1.stack_view() == s.drop_last()
                && cur_pc(m1) == pc + 1 + if falsy(s.last()) { steps as int } else { 0 },
            OPTCODE::JumpToFunction { target, .. } => (r matches Ok(Step::Continue))
                && cur_pc(m1) == target && m1.calls() == m0.calls().push((pc, m0.depth()))
                && m1.stack_view() == s,
            OPTCODE::Return => if m0.calls().len() == 0 {
                (r matches Ok(Step::Halted)) && m1.is_halted()
            } else {
                (m0.calls().last().1 != m0.depth() ==> r == Err::<Step, VmError>(VmError::MismatchedReturn))
                && (m0.calls().last().1 == m0.depth() && m0.calls().last().0 < usize::MAX ==> (r matches Ok(Step::Continue))
                    && cur_pc(m1) == m0.calls().last().0 + 1
                    && m1.calls() == m0.calls().drop_last()
                    && m1.stack_view() == s)
            },
            OPTCODE::LoadInt { value } => (r matches Ok(Step::Continue))
                && m1.stack_view() == s.push(Val::Int(value as int)) && cur_pc(m1) == pc + 1,
            OPTCODE::LoadBool { value } => (r matches Ok(Step::Continue))
                && m1.stack_view() == s.push(Val::Bool(value)) && cur_pc(m1) == pc + 1,
            OPTCODE::LoadFloat { bits } => (r matches Ok(Step::Continue))
                && m1.stack_view() == s.push(Val::Float(bits)) && cur_pc(m1) == pc + 1,
            OPTCODE::LoadString { value } => (r matches Ok(Step::Continue))
                && m1.stack_view() == s.push(Val::Str(value@)) && cur_pc(m1) == pc + 1,
            OPTCODE::CallFunction { .. } => r == Err::<Step, VmError>(VmError::UnresolvedCall),
            OPTCODE::Break => r == Err::<Step, VmError>(VmError::UnloweredBreakOrContinue),
            OPTCODE::Continue => r == Err::<Step, VmError>(VmError::UnloweredBreakOrContinue),
            OPTCODE::LoadVar { id } => if m0.var(id as int) is None {
                r == Err::<Step, VmError>(VmError::UnboundVariable { id })
            } else {
                (r matches Ok(Step::Continue)) && m1.stack_view() == s.push(m0.var(id as int).unwrap())
                    && cur_pc(m1) == pc + 1
            },
            OPTCODE::DefineVar { id } => bind_post(m0, m1, id, pc, r),
            OPTCODE::DefineObject { id } => bind_post(m0, m1, id, pc, r),
            OPTCODE::AssignVar { id } => assign_post(m0, m1, id, pc, r),
            OPTCODE::PushToTestingStack { duplicate_stackvalue } => if s.len() == 0 {
                r == Err::<Step, VmError>(VmError::StackUnderflow)
            } else {
                (r matches Ok(Step::Continue)) && cur_pc(m1) == pc + 1
                    && m1.testing_view() == m0.testing_view().push(s.last())
                    && m1.stack_view() == if duplicate_stackvalue { s } else { s.drop_last() }
            },
            OPTCODE::CreateObject { field_names } => if s.len() < field_names@.len() {
                r == Err::<Step, VmError>(VmError::StackUnderflow)
            } else {
                let n = field_names@.len() as int;
                (r matches Ok(Step::Continue)) && cur_pc(m1) == pc + 1
                    && m1.stack_view() == s.subrange(0, s.len() - n).push(
                        Val::Object(Seq::new(n as nat, |i: int| (field_names@[i]@, s[s.len() - n + i]))),
                    )
            },
            OPTCODE::CreateArray { init_values_count } => if s.len() < init_values_count {
                r == Err::<Step, VmError>(VmError::StackUnderflow)
            } else {
                (r matches Ok(Step::Continue)) && cur_pc(m1) == pc + 1
                    && m1.stack_view() == s.subrange(0, s.len() - init_values_count).push(
                        Val::Array(s.subrange(s.len() - init_values_count, s.len() as int)),
                    )
            },
            OPTCODE::GetObjectField { field_name } => get_field_post(m0, m1, field_name@, unlift(r))
                && moved_on(m1, pc, r),
            OPTCODE::SetObjectField { id, field_name } => set_field_post(m0, m1, id, field_name@, unlift(r))
                && moved_on(m1, pc, r),
            OPTCODE::GetFromArray { id } => get_index_post(m0, m1, id, unlift(r))
                && moved_on(m1, pc, r),
            OPTCODE::AssignAtArrayIndex { id } => set_index_post(m0, m1, id, unlift(r))
                && moved_on(m1, pc, r),
            OPTCODE::PushToArray { id } => push_array_post(m0, m1, id, unlift(r))
                && moved_on(m1, pc, r),
            OPTCODE::ArrayLength { id } => length_post(m0, m1, id, unlift(r))
                && moved_on(m1, pc, r),
            OPTCODE::DefineArray { id, init_values_count } => if s.len() < init_values_count {
                r == Err::<Step, VmError>(VmError::StackUnderflow)
            } else {
                (r matches Ok(Step::Continue)) && cur_pc(m1) == pc + 1
                    && m1.stack_view() == s.subrange(0, s.len() - init_values_count)
                    && m1.var(id as int) == Some(Val::Array(s.subrange(s.len() - init_values_count, s.len() as int)))
                    && forall|j: int| j != id ==> m1.var(j) == m0.var(j)
            },
            OPTCODE::CallSpecialFunction { function } => special_post(m0, m1, function, pc as usize, r),
            OPTCODE::SimpleLoop { .. } => if s.len() == 0 {
                r == Err::<Step, VmError>(VmError::StackUnderflow)
            } else if !(s.last() is Int) {
                r == Err::<Step, VmError>(VmError::TypeMismatch)
            } else if s.last()->Int_0 <= 0 {
                (r matches Ok(Step::Continue)) && m1.stack_view() == s.drop_last()
                    && cur_pc(m1) == pc + 1 && m1.depth() == m0.depth()
            } else {
                (r matches Ok(Step::Continue)) && m1.stack_view() == s.drop_last()
                    && m1.depth() == m0.depth() + 1 && cur_pc(m1) == 0
                    && m1.loops() == m0.loops().push((pc, 0, s.last()->Int_0))
            },
            _ => match instruction_binop(program[pc]) {
                Some(op) => {
                    &&& m0.stack_view().len() < 2 ==> r == Err::<Step, VmError>(VmError::StackUnderflow)
                    &&& m0.stack_view().len() >= 2 ==> arith_value_post(m0, m1, op, pc as usize, r)
                    &&& m0.stack_view().len() >= 2 ==> arith_fault_post(m0, op, r)
                    &&& m0.stack_view().len() >= 2 ==> arith_host_post(m0, m1, op, r)
                    &&& m0.stack_view().len() >= 2 ==> arith_text_post(m0, m1, op, r)
                },
                None => true,
            },
        }
    }
}

/// A call resumes just after its call site. A step on a `JumpToFunction` moves to its target
/// and records the call site; a later step on a `Return`, reached with the call stack as that
/// call left it, moves to the instruction after the call site and restores the call stack.
/// Two calls of one function from two call sites therefore each resume after their own site,
/// in order.
pub proof fn law_call_returns(
    m0: VM,
    m1: VM,
    m2: VM,
    m3: VM,
    code: Seq<OPTCODE>,
    r1: Result<Step, VmError>,
    r2: Result<Step, VmError>,
)
    requires
        code.len() <= usize::MAX,
        0 <= cur_pc(m0) < code.len(),
        code[cur_pc(m0)] is JumpToFunction,
        step_post(m0, m1, code, r1),
        m2.depth() == m0.depth(),
        0 <= cur_pc(m2) < code.len(),
        code[cur_pc(m2)] is Return,
        m2.calls() == m1.calls(),
        step_post(m2, m3, code, r2),
    ensures
        cur_pc(m1) == code[cur_pc(m0)]->target,
        cur_pc(m3) == cur_pc(m0) + 1,
        m3.calls() == m0.calls(),
        r2 matches Ok(Step::Continue),
{
    assert(m1.calls() == m0.calls().push((cur_pc(m0), m0.depth())));
    assert(m2.calls().last() == (cur_pc(m0), m0.depth()));
    assert(m0.calls().push((cur_pc(m0), m0.depth())).drop_last() =~= m0.calls());
}

/// On an assembled while-loop, the machine leaves the loop exactly when the condition value is
/// falsy: the step at the conditional exit moves past the loop's last instruction for a falsy
/// value and into the body otherwise, and the step at the end of the body moves back to the
/// first instruction of the condition, which is evaluated anew.
pub proof fn law_while_loop_steps(
    prefix: Seq<OPTCODE>,
    body: Seq<OPTCODE>,
    cond: Seq<OPTCODE>,
    m0: VM,
    m1: VM,
    r: Result<Step, VmError>,
)
    requires
        (prefix + while_loop_code(body, cond)).len() <= usize::MAX,
        body.len() + cond.len() + 2 <= usize::MAX,
        step_post(m0, m1, prefix + while_loop_code(body, cond), r),
    ensures
        ({
            let start = prefix.len() as int;
            let exit_at = start + cond.len();
            let back_at = exit_at + 1 + body.len();
            &&& cur_pc(m0) == exit_at && m0.stack_view().len() > 0 ==> cur_pc(m1) == if falsy(
                m0.stack_view().last(),
            ) {
                back_at + 1
            } else {
                exit_at + 1
            }
            &&& cur_pc(m0) == back_at ==> cur_pc(m1) == start
        }),
{
    law_while_loop_jumps(prefix, body, cond);
}

/// The end of one run through the innermost loop body: the body runs again while runs remain;
/// otherwise the loop is left and the enclosing code moves past the loop instruction.
pub open spec fn loop_pass_post(m0: VM, m1: VM, r: Result<Step, VmError>) -> bool {
    let f = m0.loops().last();
    let outer = m0.loops().drop_last();
    if f.2 > 1 {
        (r matches Ok(Step::Continue)) && m1.loops() == outer.push((f.0, 0, f.2 - 1))
            && m1.top_pc() == m0.top_pc()
    } else if f.0 < usize::MAX {
        &&& r matches Ok(Step::Continue)
        &&& outer.len() == 0 ==> m1.loops() == outer && m1.top_pc() == f.0 + 1
        &&& outer.len() > 0 ==> m1.loops() == outer.drop_last().push((outer.last().0, f.0 + 1, outer.last().2))
            && m1.top_pc() == m0.top_pc()
    } else {
        r == Err::<Step, VmError>(VmError::JumpOutOfRange)
    }
}

/// The instructions that run inside the loops entered at the given instruction indices, from
/// the outermost in: each index must hold a counted loop of the enclosing code.
pub open spec fn loop_body(program: Seq<OPTCODE>, ats: Seq<int>) -> Option<Seq<OPTCODE>>
    decreases ats.len(),
{
    if ats.len() == 0 {
        Some(program)
    } else {
        match loop_body(program, ats.drop_last()) {
            Some(code) => if 0 <= ats.last() < code.len() {
                match code[ats.last()] {
                    OPTCODE::SimpleLoop { body_block } => Some(body_block.bytecode@),
                    _ => None,
                }
            } else {
                None
            },
            None => None,
        }
    }
}

/// The instruction indices at which the active loops were entered, outermost first.
pub open spec fn loop_sites(m: VM) -> Seq<int> {
    m.loops().map_values(|l: (int, int, int)| l.0)
}


/// The instruction at the program counter of the code that runs now, if there is one.
pub open spec fn current_instruction(m: VM, program: Seq<OPTCODE>) -> Option<OPTCODE> {
    match loop_body(program, loop_sites(m)) {
        Some(code) => if 0 <= cur_pc(m) < code.len() {
            Some(code[cur_pc(m)])
        } else {
            None
        },
        None => None,
    }
}

/// The instruction may change the variable table.
pub open spec fn writes_variables(i: OPTCODE) -> bool {
    ||| i is DefineVar
    ||| i is DefineObject
    ||| i is AssignVar
    ||| i is SetObjectField
    ||| i is AssignAtArrayIndex
    ||| i is PushToArray
    ||| i is DefineArray
}

/// The loops are the same but for the program counter of the innermost one.
pub open spec fn same_loops(m0: VM, m1: VM) -> bool {
    &&& m1.depth() == m0.depth()
    &&& m1.loops().len() == m0.loops().len()
    &&& m0.depth() > 0 ==> {
        &&& m1.top_pc() == m0.top_pc()
        &&& m1.loops().drop_last() == m0.loops().drop_last()
        &&& m1.loops().last().0 == m0.loops().last().0
        &&& m1.loops().last().2 == m0.loops().last().2
    }
}

/// What a step leaves alone, apart from the halted flag: the float texts always; the flag of a
/// pending request unless one is made; and, when the step succeeds, the call stack unless it
/// calls or returns, the variables unless the instruction writes them, the testing buffer
/// unless the instruction adds to it, and the loops unless the instruction enters one.
pub open spec fn frame_common(m0: VM, m1: VM, program: Seq<OPTCODE>, r: Result<Step, VmError>) -> bool {
    let i = current_instruction(m0, program);
    &&& m1.float_texts() == m0.float_texts()
    &&& m1.is_awaiting() == ((r matches Ok(Step::Request(HostRequest::Input))) || (r matches Ok(
        Step::Request(HostRequest::FloatArithmetic { .. }),
    )))
    &&& r is Ok ==> {
        &&& !(i matches Some(OPTCODE::JumpToFunction { .. })) && !(i matches Some(OPTCODE::Return))
            ==> m1.calls() == m0.calls()
        &&& !(i is Some && writes_variables(i.unwrap())) ==> forall|j: int| #[trigger] m1.var(j) == m0.var(j)
        &&& !(i matches Some(OPTCODE::PushToTestingStack { .. })) ==> m1.testing_view() == m0.testing_view()
        &&& i is Some && !(i matches Some(OPTCODE::SimpleLoop { .. })) ==> same_loops(m0, m1)
    }
}

/// What a step leaves alone; an error stops the machine for good.
pub open spec fn step_frame(m0: VM, m1: VM, program: Seq<OPTCODE>, r: Result<Step, VmError>) -> bool {
    &&& frame_common(m0, m1, program, r)
    &&& m1.is_halted() == ((r is Err) || (r matches Ok(Step::Halted)))
}

/// What one step does, taking the machine from `m0` to `m1`: at the end of the program it
/// halts, at the end of a loop body it ends that pass, and otherwise it runs the instruction
/// at the current program counter.
pub open spec fn step_spec(m0: VM, m1: VM, program: Seq<OPTCODE>, r: Result<Step, VmError>) -> bool {
    if m0.is_halted() {
        r matches Ok(Step::Halted)
    } else if m0.is_awaiting() {
        r == Err::<Step, VmError>(VmError::AwaitingAnswer)
    } else {
        &&& step_frame(m0, m1, program, r)
        &&& match loop_body(program, loop_sites(m0)) {
            None => r == Err::<Step, VmError>(VmError::JumpOutOfRange),
            Some(code) => if cur_pc(m0) >= code.len() {
                if m0.depth() == 0 {
                    (r matches Ok(Step::Halted)) && m1.is_halted()
                } else {
                    loop_pass_post(m0, m1, r)
                }
            } else {
                step_post(m0, m1, code, r)
            },
        }
    }
}

/// The array elements bound to a variable id, if it holds an array.
pub open spec fn array_items(v: Option<Val>) -> Option<Seq<Val>> {
    match v {
        Some(Val::Array(items)) => Some(items),
        _ => None,
    }
}

/// The failure, if any, of an operation on array variable `id` that first pops an index.
pub open spec fn indexed_array_fault(m: VM, id: usize) -> Option<VmError> {
    let s = m.stack_view();
    if s.len() == 0 {
        Some(VmError::StackUnderflow)
    } else if !(s.last() is Int) {
        Some(VmError::TypeMismatch)
    } else if m.var(id as int) is None {
        Some(VmError::UnboundVariable { id })
    } else if array_items(m.var(id as int)) is None {
        Some(VmError::TypeMismatch)
    } else if !(0 <= s.last()->Int_0 < array_items(m.var(id as int)).unwrap().len()) {
        Some(VmError::IndexOutOfBounds)
    } else {
        None
    }
}

/// Reading the element of array variable `id` at the popped index.
pub open spec fn get_index_post(m0: VM, m1: VM, id: usize, r: Result<(), VmError>) -> bool {
    let s = m0.stack_view();
    match indexed_array_fault(m0, id) {
        Some(e) => r == Err::<(), VmError>(e),
        None => r is Ok && m1.stack_view() == s.drop_last().push(
            array_items(m0.var(id as int)).unwrap()[s.last()->Int_0],
        ),
    }
}

/// Writing the value below the popped index into array variable `id` at that index.
pub open spec fn set_index_post(m0: VM, m1: VM, id: usize, r: Result<(), VmError>) -> bool {
    let s = m0.stack_view();
    match indexed_array_fault(m0, id) {
        Some(e) => r == Err::<(), VmError>(e),
        None => if s.len() < 2 {
            r == Err::<(), VmError>(VmError::StackUnderflow)
        } else {
            &&& r is Ok
            &&& m1.stack_view() == s.subrange(0, s.len() - 2)
            &&& m1.var(id as int) == Some(
                Val::Array(array_items(m0.var(id as int)).unwrap().update(s.last()->Int_0, s[s.len() - 2])),
            )
            &&& forall|j: int| j != id ==> m1.var(j) == m0.var(j)
        },
    }
}

/// Appending the popped value to array variable `id`.
pub open spec fn push_array_post(m0: VM, m1: VM, id: usize, r: Result<(), VmError>) -> bool {
    let s = m0.stack_view();
    if s.len() == 0 {
        r == Err::<(), VmError>(VmError::StackUnderflow)
    } else if m0.var(id as int) is None {
        r == Err::<(), VmError>(VmError::UnboundVariable { id })
    } else if array_items(m0.var(id as int)) is None {
        r == Err::<(), VmError>(VmError::TypeMismatch)
    } else {
        &&& r is Ok
        &&& m1.stack_view() == s.drop_last()
        &&& m1.var(id as int) == Some(Val::Array(array_items(m0.var(id as int)).unwrap().push(s.last())))
        &&& forall|j: int| j != id ==> m1.var(j) == m0.var(j)
    }
}

/// Pushing the number of elements of array variable `id`.
pub open spec fn length_post(m0: VM, m1: VM, id: usize, r: Result<(), VmError>) -> bool {
    if m0.var(id as int) is None {
        r == Err::<(), VmError>(VmError::UnboundVariable { id })
    } else if array_items(m0.var(id as int)) is None {
        r == Err::<(), VmError>(VmError::TypeMismatch)
    } else if array_items(m0.var(id as int)).unwrap().len() > i64::MAX {
        r == Err::<(), VmError>(VmError::IntegerOverflow)
    } else {
        r is Ok && m1.stack_view() == m0.stack_view().push(
            Val::Int(array_items(m0.var(id as int)).unwrap().len() as int),
        )
    }
}

impl VM {
    /// The array bound to `id` and an index popped from the stack, checked.
    fn pop_index_into(&mut self, id: usize) -> (r: Result<(usize, Vec<StackValue>), VmError>)
        ensures
            indexed_array_fault(*old(self), id) is Some ==> r == Err::<(usize, Vec<StackValue>), VmError>(indexed_array_fault(*old(self), id).unwrap()),
            indexed_array_fault(*old(self), id) is None ==> r is Ok && ({
                let (i, items) = r.unwrap();
                &&& i as int == old(self).stack_view().last()->Int_0
                &&& views(items@) == array_items(old(self).var(id as int)).unwrap()
                &&& final(self).stack_view() == old(self).stack_view().drop_last()
            }),
            final(self).same_except_stack(*old(self)),
            final(self).fields_except_stack(*old(self)),
    {
        let index = match self.pop() {
            Ok(v) => match v {
                StackValue::Int { value } => value,
                _ => {
                    assert(!(v.view() is Int));
                    return Err(VmError::TypeMismatch);
                },
            },
            Err(e) => return Err(e),
        };
        assert(self.var(id as int) == old(self).var(id as int));
        let items = match self.read_var(id) {
            Ok(v) => match v {
                StackValue::Array { items } => items,
                _ => {
                    assert(!(v.view() is Array));
                    return Err(VmError::TypeMismatch);
                },
            },
            Err(e) => return Err(e),
        };
        proof {
            lemma_views(items@);
        }
        if index < 0 || index as u64 >= items.len() as u64 {
            return Err(VmError::IndexOutOfBounds);
        }
        Ok((index as usize, items))
    }

    /// Pops an index and pushes a copy of that element of array variable `id`.
    /// Running it on an index outside the array is a fatal program error, which `requires` leaves out.
    pub fn get_from_array(&mut self, id: usize) -> (r: Result<(), VmError>)
        requires
            indexed_array_fault(*old(self), id) != Some(VmError::IndexOutOfBounds),
        ensures
            get_index_post(*old(self), *final(self), id, r),
            final(self).same_except_stack(*old(self)),
            final(self).fields_except_stack(*old(self)),
    {
        self.get_from_array_checked(id)
    }

    /// Pops an index and pushes a copy of that element of array variable `id`.
    /// Every fault, an index outside the array included, comes back as an error value: the form a step uses.
    fn get_from_array_checked(&mut self, id: usize) -> (r: Result<(), VmError>)
        ensures
            get_index_post(*old(self), *final(self), id, r),
            final(self).same_except_stack(*old(self)),
            final(self).fields_except_stack(*old(self)),
    {
        match self.pop_index_into(id) {
            Ok((i, items)) => {
                proof {
                    lemma_views(items@);
                }
                let v = items[i].copy_value();
                self.push_stackvalue(v);
                Ok(())
            },
            Err(e) => Err(e),
        }
    }

    /// Pops an index, then a value, and writes the value at that index of array variable `id`.
    /// Running it on an index outside the array is a fatal program error, which `requires` leaves out.
    pub fn set_at_array(&mut self, id: usize) -> (r: Result<(), VmError>)
        requires
            indexed_array_fault(*old(self), id) != Some(VmError::IndexOutOfBounds),
        ensures
            set_index_post(*old(self), *final(self), id, r),
            final(self).same_except_data(*old(self)),
            final(self).fields_except_data(*old(self)),
    {
        self.set_at_array_checked(id)
    }

    /// Pops an index, then a value, and writes the value at that index of array variable `id`.
    /// Every fault, an index outside the array included, comes back as an error value: the form a step uses.
    fn set_at_array_checked(&mut self, id: usize) -> (r: Result<(), VmError>)
        ensures
            set_index_post(*old(self), *final(self), id, r),
            final(self).same_except_data(*old(self)),
            final(self).fields_except_data(*old(self)),
    {
        let (i, mut items) = match self.pop_index_into(id) {
            Ok(p) => p,
            Err(e) => return Err(e),
        };
        let ghost mid = self.stack_view();
        let v = match self.pop() {
            Ok(v) => v,
            Err(e) => return Err(e),
        };
        let ghost before = items@;
        proof {
            lemma_views(items@);
        }
        items.set(i, v);
        proof {
            lemma_views(before);
            lemma_views(items@);
            assert(views(items@) =~= views(before).update(i as int, v.view()));
            assert(mid.drop_last() =~= old(self).stack_view().subrange(0, old(self).stack_view().len() - 2));
        }
        self.bind(id, StackValue::Array { items });
        Ok(())
    }

    /// Pops a value and appends it to array variable `id`.
    /// Running it on a variable that is unbound or not an array is a fatal program error, which `requires` leaves out.
    pub fn push_to_array(&mut self, id: usize) -> (r: Result<(), VmError>)
        requires
            array_items(old(self).var(id as int)) is Some,
        ensures
            push_array_post(*old(self), *final(self), id, r),
            final(self).same_except_data(*old(self)),
            final(self).fields_except_data(*old(self)),
    {
        self.push_to_array_checked(id)
    }

    /// Pops a value and appends it to array variable `id`.
    /// Every fault, a variable that is unbound or not an array included, comes back as an error value: the form a step uses.
    fn push_to_array_checked(&mut self, id: usize) -> (r: Result<(), VmError>)
        ensures
            push_array_post(*old(self), *final(self), id, r),
            final(self).same_except_data(*old(self)),
            final(self).fields_except_data(*old(self)),
    {
        let v = match self.pop() {
            Ok(v) => v,
            Err(e) => return Err(e),
        };
        let mut items = match self.read_var(id) {
            Ok(v) => match v {
                StackValue::Array { items } => items,
                _ => {
                    assert(!(v.view() is Array));
                    return Err(VmError::TypeMismatch);
                },
            },
            Err(e) => return Err(e),
        };
        let ghost before = items@;
        items.push(v);
        proof {
            lemma_views_push(before, v);
        }
        self.bind(id, StackValue::Array { items });
        Ok(())
    }

    /// Pushes the number of elements of array variable `id`.
    pub fn get_array_length(&mut self, id: usize) -> (r: Result<(), VmError>)
        ensures
            length_post(*old(self), *final(self), id, r),
            final(self).same_except_stack(*old(self)),
            final(self).fields_except_stack(*old(self)),
    {
        let items = match self.read_var(id) {
            Ok(v) => match v {
                StackValue::Array { items } => items,
                _ => {
                    assert(!(v.view() is Array));
                    return Err(VmError::TypeMismatch);
                },
            },
            Err(e) => return Err(e),
        };
        proof {
            lemma_views(items@);
        }
        let n = items.len();
        if n as u64 > i64::MAX as u64 {
            return Err(VmError::IntegerOverflow);
        }
        self.push_stackvalue(StackValue::Int { value: n as i64 });
        Ok(())
    }
}

/// What the builtin length operation gives for a value: 1 for a boolean, the length of the
/// decimal text for a number, the number of characters of a string, the number of elements or
/// fields of an array or object. `None` for a float whose text is not known.
pub open spec fn length_spec(v: Val, texts: Map<u64, Seq<char>>) -> Option<int> {
    match v {
        Val::Bool(_) => Some(1),
        Val::Int(i) => Some(int_text(i).len() as int),
        Val::Float(b) => if texts.contains_key(b) {
            Some(texts[b].len() as int)
        } else {
            None
        },
        Val::Str(s) => Some(s.len() as int),
        Val::Array(items) => Some(items.len() as int),
        Val::Object(fields) => Some(fields.len() as int),
    }
}

/// The length of a value; fails with the bit pattern of a float whose text is not known.
pub fn length_of(value: &StackValue, texts: &FloatTexts) -> (r: Result<usize, u64>)
    requires
        texts.wf(),
    ensures
        r is Ok == length_spec(value.view(), texts@) is Some,
        r is Ok ==> r.unwrap() as int == length_spec(value.view(), texts@).unwrap(),
        r is Err ==> !texts@.contains_key(r->Err_0),
{
    match value {
        StackValue::Bool { .. } => Ok(1),
        StackValue::Int { value } => Ok(int_to_string(*value).as_str().unicode_len()),
        StackValue::Float { bits } => match texts.get(*bits) {
            Some(t) => Ok(t.as_str().unicode_len()),
            None => Err(*bits),
        },
        StackValue::String { value } => Ok(value.as_str().unicode_len()),
        StackValue::Array { items } => {
            proof {
                lemma_views(items@);
            }
            Ok(items.len())
        },
        StackValue::Object { fields } => {
            proof {
                lemma_field_views(fields@);
            }
            Ok(fields.len())
        },
    }
}

/// Relies on rand's `thread_rng().gen_range(min..max)`: a value drawn from the half-open range
/// `min..max`. It panics on an empty range, which `requires` leaves out.
#[verifier::external_body]
fn random_in_range(min: i64, max: i64) -> (r: i64)
    requires
        min < max,
    ensures
        min <= r < max,
{
    rand::Rng::gen_range(&mut rand::thread_rng(), min..max)
}

impl VM {
    /// The instructions that run now: the program's own, or the body of the innermost counted
    /// loop.
    fn current_code<'a>(&self, program: &'a Vec<OPTCODE>) -> (r: Option<&'a Vec<OPTCODE>>)
        ensures
            self.frames@.len() == 0 ==> r == Some(program),
            r is Some == loop_body(program@, loop_sites(*self)) is Some,
            r is Some ==> r.unwrap()@ == loop_body(program@, loop_sites(*self)).unwrap(),
    {
        let mut code: &Vec<OPTCODE> = program;
        let mut i: usize = 0;
        let ghost sites = loop_sites(*self);
        proof {
            assert(sites.take(0) =~= Seq::<int>::empty());
        }
        while i < self.frames.len()
            invariant
                i <= self.frames@.len(),
                self.frames@.len() == 0 ==> code == program,
                sites == loop_sites(*self),
                sites.len() == self.frames@.len(),
                forall|j: int| 0 <= j < sites.len() ==> #[trigger] sites[j] == self.frames@[j].at as int,
                loop_body(program@, sites.take(i as int)) == Some(code@),
            decreases self.frames@.len() - i,
        {
            proof {
                assert(sites.take(i as int + 1).drop_last() =~= sites.take(i as int));
            }
            let at = self.frames[i].at;
            if at >= code.len() {
                proof {
                    lemma_loop_body_none(program@, sites, i as int + 1);
                }
                return None;
            }
            match &code[at] {
                OPTCODE::SimpleLoop { body_block } => {
                    code = &body_block.bytecode;
                },
                _ => {
                    proof {
                        lemma_loop_body_none(program@, sites, i as int + 1);
                    }
                    return None;
                },
            }
            i = i + 1;
        }
        proof {
            assert(sites.take(i as int) =~= sites);
        }
        Some(code)
    }

    fn current_pc(&self) -> (r: usize)
        ensures
            self.frames@.len() == 0 ==> r == self.pc,
            self.frames@.len() > 0 ==> r as int == self.loops().last().1,
    {
        if self.frames.len() == 0 {
            self.pc
        } else {
            self.frames[self.frames.len() - 1].pc
        }
    }

    fn set_pc(&mut self, pc: usize)
        ensures
            cur_pc(*final(self)) == pc,
            final(self).depth() == old(self).depth(),
            same_loops(*old(self), *final(self)),
            old(self).frames@.len() == 0 ==> final(self).pc == pc && final(self).frames == old(self).frames,
            old(self).frames@.len() > 0 ==> final(self).pc == old(self).pc && final(self).loops() == old(self).loops().drop_last().push(
                (old(self).loops().last().0, pc as int, old(self).loops().last().2),
            ),
            final(self).frames@.len() == old(self).frames@.len(),
            final(self).stack == old(self).stack,
            final(self).variables == old(self).variables,
            final(self).testing_stack == old(self).testing_stack,
            final(self).call_stack == old(self).call_stack,
            final(self).halted == old(self).halted,
            final(self).awaiting == old(self).awaiting,
            final(self).texts == old(self).texts,
    {
        if self.frames.len() == 0 {
            self.pc = pc;
        } else {
            let ghost before = self.frames@;
            let mut f = self.frames.pop().unwrap();
            f.pc = pc;
            self.frames.push(f);
            proof {
                assert(self.frames@ =~= before.drop_last().push(f));
                assert(self.loops() =~= old(self).loops().drop_last().push(
                    (old(self).loops().last().0, pc as int, old(self).loops().last().2),
                ));
                assert(self.loops().drop_last() =~= old(self).loops().drop_last());
            }
        }
    }

    /// Moves past the instruction at `pc`, with `steps` more to skip.
    fn advance(&mut self, pc: usize, steps: usize) -> (r: Result<Step, VmError>)
        ensures
            pc as int + 1 + steps as int > usize::MAX ==> r == Err::<Step, VmError>(VmError::JumpOutOfRange),
            pc as int + 1 + steps as int <= usize::MAX ==> (r matches Ok(Step::Continue)) && cur_pc(*final(self)) == pc + 1 + steps
                && (old(self).frames@.len() == 0 ==> final(self).pc == pc + 1 + steps) && (old(self).frames@.len() > 0 ==> final(self).loops()
                == old(self).loops().drop_last().push((old(self).loops().last().0, pc + 1 + steps, old(self).loops().last().2))),
            final(self).pc == old(self).pc || old(self).frames@.len() == 0,
            same_loops(*old(self), *final(self)),
            final(self).frames@.len() == old(self).frames@.len(),
            old(self).frames@.len() == 0 ==> final(self).frames == old(self).frames,
            final(self).stack == old(self).stack,
            final(self).variables == old(self).variables,
            final(self).testing_stack == old(self).testing_stack,
            final(self).call_stack == old(self).call_stack,
            final(self).halted == old(self).halted,
            final(self).awaiting == old(self).awaiting,
            final(self).texts == old(self).texts,
    {
        if pc == usize::MAX || steps > usize::MAX - pc - 1 {
            return Err(VmError::JumpOutOfRange);
        }
        self.set_pc(pc + 1 + steps);
        Ok(Step::Continue)
    }

    /// Ends one run through a loop body: runs it again while runs remain, or leaves the loop.
    fn finish_loop_pass(&mut self) -> (r: Result<Step, VmError>)
        requires
            old(self).frames@.len() > 0,
        ensures
            final(self).texts == old(self).texts,
            final(self).stack == old(self).stack,
            final(self).variables == old(self).variables,
            final(self).testing_stack == old(self).testing_stack,
            final(self).call_stack == old(self).call_stack,
            final(self).halted == old(self).halted,
            final(self).awaiting == old(self).awaiting,
            loop_pass_post(*old(self), *final(self), r),
    {
        let ghost before = self.frames@;
        let mut f = self.frames.pop().unwrap();
        proof {
            assert(self.loops() =~= old(self).loops().drop_last());
        }
        if f.remaining > 1 {
            f.remaining = f.remaining - 1;
            f.pc = 0;
            self.frames.push(f);
            proof {
                assert(self.frames@ =~= before.drop_last().push(f));
                assert(self.loops() =~= old(self).loops().drop_last().push(
                    (old(self).loops().last().0, 0, old(self).loops().last().2 - 1),
                ));
            }
            Ok(Step::Continue)
        } else {
            let at = f.at;
            self.advance(at, 0)
        }
    }

    /// Records the decimal text of a float that a request asked for.
    pub fn supply_float_text(&mut self, bits: u64, text: String)
        requires
            old(self).wf(),
        ensures
            final(self).wf(),
            final(self).float_texts() == old(self).float_texts().insert(bits, text@),
            final(self).stack_view() == old(self).stack_view(),
            final(self).top_pc() == old(self).top_pc(),
            final(self).loops() == old(self).loops(),
            forall|j: int| #[trigger] final(self).var(j) == old(self).var(j),
            final(self).keeps_variables(*old(self)),
            final(self).testing_view() == old(self).testing_view(),
            final(self).calls() == old(self).calls(),
            final(self).is_halted() == old(self).is_halted(),
            final(self).is_awaiting() == old(self).is_awaiting(),
    {
        self.texts.insert(bits, text);
    }

    /// Answers an input or float-arithmetic request with a value: it is pushed, and the
    /// waiting instruction completes.
    pub fn answer(&mut self, value: StackValue) -> (r: Result<(), VmError>)
        requires
            old(self).wf(),
        ensures
            final(self).wf(),
            !old(self).is_awaiting() ==> r == Err::<(), VmError>(VmError::UnexpectedAnswer),
            old(self).is_awaiting() ==> !final(self).is_awaiting() && final(self).stack_view()
                == old(self).stack_view().push(value.view()),
            old(self).is_awaiting() && cur_pc(*old(self)) < usize::MAX ==> r is Ok && cur_pc(*final(self))
                == cur_pc(*old(self)) + 1 && final(self).depth() == old(self).depth(),
            forall|j: int| #[trigger] final(self).var(j) == old(self).var(j),
            final(self).keeps_variables(*old(self)),
            final(self).testing_view() == old(self).testing_view(),
            final(self).calls() == old(self).calls(),
            final(self).is_halted() == old(self).is_halted(),
            final(self).float_texts() == old(self).float_texts(),
    {
        if !self.awaiting {
            return Err(VmError::UnexpectedAnswer);
        }
        self.awaiting = false;
        self.push_stackvalue(value);
        let pc = self.current_pc();
        match self.advance(pc, 0) {
            Ok(_) => Ok(()),
            Err(e) => Err(e),
        }
    }

    /// The values observed through the testing buffer, oldest first.
    pub fn testing_stack(&self) -> (r: &Vec<StackValue>)
        ensures
            views(r@) == self.testing_view(),
    {
        &self.testing_stack
    }

    /// Applies a binary operator to the two top values: the lower one is the left operand.
    /// A float operand hands the operation to the host; a float whose text is needed first is
    /// asked for, and nothing changes until it is supplied.
    pub fn aritmethics(&mut self, op: BINOP, pc: usize) -> (r: Result<Step, VmError>)
        requires
            old(self).wf(),
            !old(self).is_awaiting(),
            pc < usize::MAX,
        ensures
            final(self).wf(),
            final(self).float_texts() == old(self).float_texts(),
            final(self).depth() == old(self).depth(),
            final(self).calls() == old(self).calls(),
            final(self).testing_view() == old(self).testing_view(),
            final(self).is_halted() == old(self).is_halted(),
            forall|j: int| #[trigger] final(self).var(j) == old(self).var(j),
            final(self).keeps_variables(*old(self)),
            final(self).is_awaiting() == (r matches Ok(Step::Request(HostRequest::FloatArithmetic { .. }))),
            same_loops(*old(self), *final(self)),
            old(self).stack_view().len() < 2 ==> r == Err::<Step, VmError>(VmError::StackUnderflow),
            old(self).stack_view().len() >= 2 ==> arith_value_post(*old(self), *final(self), op, pc, r),
            old(self).stack_view().len() >= 2 ==> arith_fault_post(*old(self), op, r),
            old(self).stack_view().len() >= 2 ==> arith_host_post(*old(self), *final(self), op, r),
            old(self).stack_view().len() >= 2 ==> arith_text_post(*old(self), *final(self), op, r),
    {
        proof {
            lemma_views(self.stack@);
        }
        let n = self.stack.len();
        if n < 2 {
            return Err(VmError::StackUnderflow);
        }
        let outcome = evaluate_binop(op, &self.stack[n - 2], &self.stack[n - 1], &self.texts);
        proof {
            if outcome is NeedFloatText {
                assert(!self.texts@.contains_key(outcome->NeedFloatText_0)) by {
                    crate::math_operators::lemma_need_text_is_missing(op, self.stack_view()[n - 2], self.stack_view()[n - 1], self.texts@);
                }
            }
        }
        let ghost s = self.stack_view();
        assert(outcome.model() == evaluate(op, s[s.len() - 2], s[s.len() - 1], self.texts@));
        match outcome {
            BinopOutcome::Value(v) => {
                let _ = self.pop();
                let _ = self.pop();
                self.push_stackvalue(v);
                proof {
                    assert(s.drop_last().drop_last() =~= s.subrange(0, s.len() - 2));
                }
                let r = self.advance(pc, 0);
                assert(self.stack_view() == s.subrange(0, s.len() - 2).push(v.view()));
                r
            },
            BinopOutcome::Fault(e) => Err(e),
            BinopOutcome::FloatArithmetic => {
                let right = match self.pop() {
                    Ok(v) => v,
                    Err(e) => return Err(e),
                };
                let left = match self.pop() {
                    Ok(v) => v,
                    Err(e) => return Err(e),
                };
                proof {
                    assert(s.drop_last().drop_last() =~= s.subrange(0, s.len() - 2));
                    assert(s.drop_last().last() == s[s.len() - 2]);
                    assert(left.view() == s[s.len() - 2]);
                    assert(right.view() == s[s.len() - 1]);
                }
                self.awaiting = true;
                Ok(Step::Request(HostRequest::FloatArithmetic { op, left, right }))
            },
            BinopOutcome::NeedFloatText(bits) => Ok(Step::Request(HostRequest::FloatText { bits })),
        }
    }

    /// Pops a repeat count and enters the nested block that many times (not at all for zero or
    /// less).
    /// Running it on a repeat count that is not an integer is a fatal program error, which `requires` leaves out.
    pub fn simple_loop(&mut self, pc: usize) -> (r: Result<Step, VmError>)
        requires
            old(self).stack_view().len() > 0 ==> old(self).stack_view().last() is Int,
            pc < usize::MAX,
        ensures
            forall|j: int| #[trigger] final(self).var(j) == old(self).var(j),
            final(self).keeps_variables(*old(self)),
            final(self).testing_view() == old(self).testing_view(),
            old(self).wf() ==> final(self).wf(),
            final(self).float_texts() == old(self).float_texts(),
            final(self).calls() == old(self).calls(),
            final(self).is_halted() == old(self).is_halted(),
            final(self).is_awaiting() == old(self).is_awaiting(),
            ({
                let s = old(self).stack_view();
                if s.len() == 0 {
                    r == Err::<Step, VmError>(VmError::StackUnderflow)
                } else if !(s.last() is Int) {
                    r == Err::<Step, VmError>(VmError::TypeMismatch)
                } else if s.last()->Int_0 <= 0 {
                    (r matches Ok(Step::Continue)) && final(self).stack_view() == s.drop_last()
                        && final(self).depth() == old(self).depth()
                        && cur_pc(*final(self)) == pc + 1
                } else {
                    (r matches Ok(Step::Continue)) && final(self).stack_view() == s.drop_last()
                        && final(self).loops() == old(self).loops().push((pc as int, 0, s.last()->Int_0))
                        && final(self).depth() == old(self).depth() + 1
                        && final(self).top_pc() == old(self).top_pc()
                }
            }),
    {
        self.simple_loop_checked(pc)
    }

    /// Pops a repeat count and enters the nested block that many times (not at all for zero or
    /// less).
    /// Every fault, a repeat count that is not an integer included, comes back as an error value: the form a step uses.
    fn simple_loop_checked(&mut self, pc: usize) -> (r: Result<Step, VmError>)
        requires
            pc < usize::MAX,
        ensures
            forall|j: int| #[trigger] final(self).var(j) == old(self).var(j),
            final(self).keeps_variables(*old(self)),
            final(self).testing_view() == old(self).testing_view(),
            old(self).wf() ==> final(self).wf(),
            final(self).float_texts() == old(self).float_texts(),
            final(self).calls() == old(self).calls(),
            final(self).is_halted() == old(self).is_halted(),
            final(self).is_awaiting() == old(self).is_awaiting(),
            ({
                let s = old(self).stack_view();
                if s.len() == 0 {
                    r == Err::<Step, VmError>(VmError::StackUnderflow)
                } else if !(s.last() is Int) {
                    r == Err::<Step, VmError>(VmError::TypeMismatch)
                } else if s.last()->Int_0 <= 0 {
                    (r matches Ok(Step::Continue)) && final(self).stack_view() == s.drop_last()
                        && final(self).depth() == old(self).depth()
                        && cur_pc(*final(self)) == pc + 1
                } else {
                    (r matches Ok(Step::Continue)) && final(self).stack_view() == s.drop_last()
                        && final(self).loops() == old(self).loops().push((pc as int, 0, s.last()->Int_0))
                        && final(self).depth() == old(self).depth() + 1
                        && final(self).top_pc() == old(self).top_pc()
                }
            }),
    {
        let count = match self.pop() {
            Ok(v) => match v {
                StackValue::Int { value } => value,
                _ => {
                    assert(!(v.view() is Int));
                    return Err(VmError::TypeMismatch);
                },
            },
            Err(e) => return Err(e),
        };
        if count <= 0 {
            return self.advance(pc, 0);
        }
        let ghost before = self.frames@;
        let frame = LoopFrame { at: pc, pc: 0, remaining: count };
        self.frames.push(frame);
        proof {
            assert(self.frames@ =~= before.push(frame));
            assert(self.loops() =~= old(self).loops().push((pc as int, 0, count as int)));
        }
        Ok(Step::Continue)
    }

    /// Pops a value and writes it into the first field of the given name of object variable
    /// `id`.
    pub fn set_object_field(&mut self, id: usize, field_name: &String) -> (r: Result<(), VmError>)
        ensures
            set_field_post(*old(self), *final(self), id, field_name@, r),
            final(self).same_except_data(*old(self)),
            final(self).fields_except_data(*old(self)),
    {
        let ghost s = self.stack_view();
        let v = match self.pop() {
            Ok(v) => v,
            Err(e) => return Err(e),
        };
        let mut fields = match self.read_var(id) {
            Ok(o) => match o {
                StackValue::Object { fields } => fields,
                _ => {
                    assert(!(o.view() is Object));
                    return Err(VmError::TypeMismatch);
                },
            },
            Err(e) => return Err(e),
        };
        let ghost fs = crate::value::field_views(fields@);
        proof {
            lemma_field_views(fields@);
        }
        let mut k: usize = 0;
        while k < fields.len()
            invariant
                fs == crate::value::field_views(fields@),
                fs.len() == fields@.len(),
                forall|j: int| 0 <= j < fs.len() ==> #[trigger] fs[j] == (fields@[j].name@, fields@[j].value.view()),
                k <= fields@.len(),
                forall|j: int| 0 <= j < k ==> fs[j].0 != field_name@,
            ensures
                k <= fields@.len(),
                forall|j: int| 0 <= j < k ==> fs[j].0 != field_name@,
                k < fields@.len() ==> fs[k as int].0 == field_name@,
            decreases fields@.len() - k,
        {
            if fields[k].name == *field_name {
                break;
            }
            k = k + 1;
        }
        if k == fields.len() {
            return Err(VmError::FieldNotFound);
        }
        proof {
            assert forall|k2: int|
                0 <= k2 < fs.len() && fs[k2].0 == field_name@ && (forall|j: int| 0 <= j < k2 ==> fs[j].0 != field_name@)
                implies k2 == k by {
                if k2 > k {
                    assert(fs[k as int].0 == field_name@);
                }
            }
        }
        let name = fields[k].name.clone();
        let ghost vv = v.view();
        fields.set(k, crate::value::ObjectField { name, value: v });
        proof {
            lemma_field_views(fields@);
            assert(crate::value::field_views(fields@) =~= fs.update(k as int, (fs[k as int].0, vv)));
        }
        self.bind(id, StackValue::Object { fields });
        Ok(())
    }

    /// Runs one instruction of the program, or ends one pass through a loop body.
    pub fn step(&mut self, program: &Vec<OPTCODE>) -> (r: Result<Step, VmError>)
        requires
            old(self).wf(),
        ensures
            final(self).wf(),
            step_spec(*old(self), *final(self), program@, r),
    {
        let r = self.step_inner(program);
        let ghost mid = *self;
        proof {
            if !old(self).is_halted() && !old(self).is_awaiting() {
                match loop_body(program@, loop_sites(*old(self))) {
                    Some(code) => if cur_pc(*old(self)) < code.len() {
                        assert(step_post(*old(self), mid, code, r));
                    },
                    None => {},
                }
            }
        }
        if r.is_err() {
            self.halted = true;
            proof {
                if !old(self).is_halted() && !old(self).is_awaiting() {
                    lemma_error_post(*old(self), mid, *self, program@, r);
                }
            }
        }
        r
    }

    #[verifier::rlimit(100)]
    fn step_inner(&mut self, program: &Vec<OPTCODE>) -> (r: Result<Step, VmError>)
        requires
            old(self).wf(),
        ensures
            final(self).wf(),
            old(self).is_halted() ==> (r matches Ok(Step::Halted)),
            !old(self).is_halted() && old(self).is_awaiting() ==> r == Err::<Step, VmError>(VmError::AwaitingAnswer),
            old(self).is_halted() || old(self).is_awaiting() ==> *final(self) == *old(self),
            !old(self).is_halted() && !old(self).is_awaiting() ==> frame_common(*old(self), *final(self), program@, r)
                && final(self).is_halted() == (r matches Ok(Step::Halted)),
            !old(self).is_halted() && !old(self).is_awaiting() && loop_body(program@, loop_sites(*old(self))) is None
                ==> r == Err::<Step, VmError>(VmError::JumpOutOfRange),
            !old(self).is_halted() && !old(self).is_awaiting() && loop_body(program@, loop_sites(*old(self))) is Some
                && cur_pc(*old(self)) >= loop_body(program@, loop_sites(*old(self))).unwrap().len() ==> if old(self).depth() == 0 {
                (r matches Ok(Step::Halted)) && final(self).is_halted()
            } else {
                loop_pass_post(*old(self), *final(self), r)
            },
            !old(self).is_halted() && !old(self).is_awaiting() && loop_body(program@, loop_sites(*old(self))) is Some
                && cur_pc(*old(self)) < loop_body(program@, loop_sites(*old(self))).unwrap().len() ==> ({
            let code = loop_body(program@, loop_sites(*old(self))).unwrap();
            let pc = cur_pc(*old(self));
            let s = old(self).stack_view();
            if pc >= code.len() {
                true
            } else {
                match code[pc] {
                    OPTCODE::Jump { steps } => pc + 1 + steps <= usize::MAX ==> (r matches Ok(Step::Continue))
                        && cur_pc(*final(self)) == pc + 1 + steps && final(self).stack_view() == s,
                    OPTCODE::JumpBack { steps } => steps <= pc + 1 ==> (r matches Ok(Step::Continue))
                        && cur_pc(*final(self)) == pc + 1 - steps && final(self).stack_view() == s,
                    OPTCODE::JumpIfFalse { steps } => s.len() > 0 && pc + 1 + steps <= usize::MAX
                        ==> (r matches Ok(Step::Continue)) && final(self).stack_view() == s.drop_last()
                        && cur_pc(*final(self)) == pc + 1 + if falsy(s.last()) { steps as int } else { 0 },
                    OPTCODE::JumpToFunction { target, .. } => (r matches Ok(Step::Continue))
                        && cur_pc(*final(self)) == target && final(self).calls() == old(self).calls().push((pc, old(self).depth()))
                        && final(self).stack_view() == s,
                    OPTCODE::Return => if old(self).calls().len() == 0 {
                        (r matches Ok(Step::Halted)) && final(self).is_halted()
                    } else {
                        (old(self).calls().last().1 != old(self).depth() ==> r == Err::<Step, VmError>(VmError::MismatchedReturn))
                        && (old(self).calls().last().1 == old(self).depth() && old(self).calls().last().0 < usize::MAX ==> (r matches Ok(Step::Continue))
                            && cur_pc(*final(self)) == old(self).calls().last().0 + 1
                            && final(self).calls() == old(self).calls().drop_last()
                            && final(self).stack_view() == s)
                    },
                    OPTCODE::LoadInt { value } => (r matches Ok(Step::Continue))
                        && final(self).stack_view() == s.push(Val::Int(value as int)) && cur_pc(*final(self)) == pc + 1,
                    OPTCODE::LoadBool { value } => (r matches Ok(Step::Continue))
                        && final(self).stack_view() == s.push(Val::Bool(value)) && cur_pc(*final(self)) == pc + 1,
                    OPTCODE::LoadFloat { bits } => (r matches Ok(Step::Continue))
                        && final(self).stack_view() == s.push(Val::Float(bits)) && cur_pc(*final(self)) == pc + 1,
                    OPTCODE::LoadString { value } => (r matches Ok(Step::Continue))
                        && final(self).stack_view() == s.push(Val::Str(value@)) && cur_pc(*final(self)) == pc + 1,
                    OPTCODE::CallFunction { .. } => r == Err::<Step, VmError>(VmError::UnresolvedCall),
                    OPTCODE::Break => r == Err::<Step, VmError>(VmError::UnloweredBreakOrContinue),
                    OPTCODE::Continue => r == Err::<Step, VmError>(VmError::UnloweredBreakOrContinue),
                    OPTCODE::LoadVar { id } => if old(self).var(id as int) is None {
                        r == Err::<Step, VmError>(VmError::UnboundVariable { id })
                    } else {
                        (r matches Ok(Step::Continue)) && final(self).stack_view() == s.push(old(self).var(id as int).unwrap())
                            && cur_pc(*final(self)) == pc + 1
                    },
                    OPTCODE::DefineVar { id } => bind_post(*old(self), *final(self), id, pc, r),
                    OPTCODE::DefineObject { id } => bind_post(*old(self), *final(self), id, pc, r),
                    OPTCODE::AssignVar { id } => assign_post(*old(self), *final(self), id, pc, r),
                    OPTCODE::PushToTestingStack { duplicate_stackvalue } => if s.len() == 0 {
                        r == Err::<Step, VmError>(VmError::StackUnderflow)
                    } else {
                        (r matches Ok(Step::Continue)) && cur_pc(*final(self)) == pc + 1
                            && final(self).testing_view() == old(self).testing_view().push(s.last())
                            && final(self).stack_view() == if duplicate_stackvalue { s } else { s.drop_last() }
                    },
                    OPTCODE::CreateObject { field_names } => if s.len() < field_names@.len() {
                        r == Err::<Step, VmError>(VmError::StackUnderflow)
                    } else {
                        let n = field_names@.len() as int;
                        (r matches Ok(Step::Continue)) && cur_pc(*final(self)) == pc + 1
                            && final(self).stack_view() == s.subrange(0, s.len() - n).push(
                                Val::Object(Seq::new(n as nat, |i: int| (field_names@[i]@, s[s.len() - n + i]))),
                            )
                    },
                    OPTCODE::CreateArray { init_values_count } => if s.len() < init_values_count {
                        r == Err::<Step, VmError>(VmError::StackUnderflow)
                    } else {
                        (r matches Ok(Step::Continue)) && cur_pc(*final(self)) == pc + 1
                            && final(self).stack_view() == s.subrange(0, s.len() - init_values_count).push(
                                Val::Array(s.subrange(s.len() - init_values_count, s.len() as int)),
                            )
                    },
                    OPTCODE::GetObjectField { field_name } => get_field_post(*old(self), *final(self), field_name@, unlift(r))
                        && moved_on(*final(self), pc, r),
                    OPTCODE::SetObjectField { id, field_name } => set_field_post(*old(self), *final(self), id, field_name@, unlift(r))
                        && moved_on(*final(self), pc, r),
                    OPTCODE::GetFromArray { id } => get_index_post(*old(self), *final(self), id, unlift(r))
                        && moved_on(*final(self), pc, r),
                    OPTCODE::AssignAtArrayIndex { id } => set_index_post(*old(self), *final(self), id, unlift(r))
                        && moved_on(*final(self), pc, r),
                    OPTCODE::PushToArray { id } => push_array_post(*old(self), *final(self), id, unlift(r))
                        && moved_on(*final(self), pc, r),
                    OPTCODE::ArrayLength { id } => length_post(*old(self), *final(self), id, unlift(r))
                        && moved_on(*final(self), pc, r),
                    OPTCODE::DefineArray { id, init_values_count } => if s.len() < init_values_count {
                        r == Err::<Step, VmError>(VmError::StackUnderflow)
                    } else {
                        (r matches Ok(Step::Continue)) && cur_pc(*final(self)) == pc + 1
                            && final(self).stack_view() == s.subrange(0, s.len() - init_values_count)
                            && final(self).var(id as int) == Some(Val::Array(s.subrange(s.len() - init_values_count, s.len() as int)))
                            && forall|j: int| j != id ==> final(self).var(j) == old(self).var(j)
                    },
                    OPTCODE::CallSpecialFunction { function } => special_post(*old(self), *final(self), function, pc as usize, r),
                    OPTCODE::SimpleLoop { .. } => if s.len() == 0 {
                        r == Err::<Step, VmError>(VmError::StackUnderflow)
                    } else if !(s.last() is Int) {
                        r == Err::<Step, VmError>(VmError::TypeMismatch)
                    } else if s.last()->Int_0 <= 0 {
                        (r matches Ok(Step::Continue)) && final(self).stack_view() == s.drop_last()
                            && cur_pc(*final(self)) == pc + 1 && final(self).depth() == old(self).depth()
                    } else {
                        (r matches Ok(Step::Continue)) && final(self).stack_view() == s.drop_last()
                            && final(self).depth() == old(self).depth() + 1 && cur_pc(*final(self)) == 0
                            && final(self).loops() == old(self).loops().push((pc, 0, s.last()->Int_0))
                    },
                    _ => match instruction_binop(code[pc]) {
                        Some(op) => {
                            &&& old(self).stack_view().len() < 2 ==> r == Err::<Step, VmError>(VmError::StackUnderflow)
                            &&& old(self).stack_view().len() >= 2 ==> arith_value_post(*old(self), *final(self), op, pc as usize, r)
                            &&& old(self).stack_view().len() >= 2 ==> arith_fault_post(*old(self), op, r)
                            &&& old(self).stack_view().len() >= 2 ==> arith_host_post(*old(self), *final(self), op, r)
                            &&& old(self).stack_view().len() >= 2 ==> arith_text_post(*old(self), *final(self), op, r)
                        },
                        None => true,
                    },
                }
            }
            }),
    {
        if self.halted {
            return Ok(Step::Halted);
        }
        if self.awaiting {
            return Err(VmError::AwaitingAnswer);
        }
        let code = match self.current_code(program) {
            Some(c) => c,
            None => return Err(VmError::JumpOutOfRange),
        };
        let pc = self.current_pc();
        if pc >= code.len() {
            if self.frames.len() == 0 {
                self.halted = true;
                return Ok(Step::Halted);
            }
            return self.finish_loop_pass();
        }
        match &code[pc] {
            OPTCODE::LoadInt { value } => {
                self.push_stackvalue(StackValue::Int { value: *value });
                self.advance(pc, 0)
            },
            OPTCODE::LoadBool { value } => {
                self.push_stackvalue(StackValue::Bool { value: *value });
                self.advance(pc, 0)
            },
            OPTCODE::LoadString { value } => {
                self.push_stackvalue(StackValue::String { value: value.clone() });
                self.advance(pc, 0)
            },
            OPTCODE::LoadFloat { bits } => {
                self.push_stackvalue(StackValue::Float { bits: *bits });
                self.advance(pc, 0)
            },
            OPTCODE::LoadVar { id } => {
                match self.load_var(*id) {
                    Ok(()) => self.advance(pc, 0),
                    Err(e) => Err(e),
                }
            },
            OPTCODE::CallFunction { .. } => Err(VmError::UnresolvedCall),
            OPTCODE::JumpToFunction { target, function_name } => {
                let name = match function_name {
                    Some(n) => Some(n.clone()),
                    None => None,
                };
                let ghost before = self.call_stack@;
                self.call_stack.push(
                    CallStackItem { optode_index: pc, function_name: name, depth: self.frames.len() },
                );
                proof {
                    if old(self).frames@.len() == 0 {
                        assert(self.call_stack@ == before.push(self.call_stack@.last()));
                        assert(self.calls() =~= old(self).calls().push((pc as int, 0)));
                    }
                }
                self.set_pc(*target);
                Ok(Step::Continue)
            },
            OPTCODE::Return => {
                let ghost before = self.calls();
                match self.call_stack.pop() {
                    None => {
                        self.halted = true;
                        Ok(Step::Halted)
                    },
                    Some(item) => {
                        proof {
                            assert(self.calls() =~= before.drop_last());
                        }
                        if item.depth != self.frames.len() {
                            return Err(VmError::MismatchedReturn);
                        }
                        self.advance(item.optode_index, 0)
                    },
                }
            },
            OPTCODE::Add => self.aritmethics(BINOP::Add, pc),
            OPTCODE::Subtract => self.aritmethics(BINOP::Subtract, pc),
            OPTCODE::Multiply => self.aritmethics(BINOP::Multiply, pc),
            OPTCODE::Divide => self.aritmethics(BINOP::Divide, pc),
            OPTCODE::Remainder => self.aritmethics(BINOP::Remainder, pc),
            OPTCODE::LessThan => self.aritmethics(BINOP::LessThan, pc),
            OPTCODE::LargerThan => self.aritmethics(BINOP::LargerThan, pc),
            OPTCODE::LessOrEq => self.aritmethics(BINOP::LessOrEq, pc),
            OPTCODE::LargerOrEq => self.aritmethics(BINOP::LargerOrEq, pc),
            OPTCODE::NotEq => self.aritmethics(BINOP::NotEq, pc),
            OPTCODE::Eq => self.aritmethics(BINOP::Eq, pc),
            OPTCODE::Or => self.aritmethics(BINOP::Or, pc),
            OPTCODE::And => self.aritmethics(BINOP::And, pc),
            OPTCODE::Xor => self.aritmethics(BINOP::Xor, pc),
            OPTCODE::JumpIfFalse { steps } => {
                match self.must_jump() {
                    Ok(true) => self.advance(pc, *steps),
                    Ok(false) => self.advance(pc, 0),
                    Err(e) => Err(e),
                }
            },
            OPTCODE::Jump { steps } => self.advance(pc, *steps),
            OPTCODE::JumpBack { steps } => {
                if *steps > pc + 1 {
                    return Err(VmError::JumpOutOfRange);
                }
                self.set_pc(pc + 1 - *steps);
                Ok(Step::Continue)
            },
            OPTCODE::DefineVar { id } | OPTCODE::DefineObject { id } => {
                match self.define_var(*id) {
                    Ok(()) => self.advance(pc, 0),
                    Err(e) => Err(e),
                }
            },
            OPTCODE::CreateObject { field_names } => {
                match self.create_object(field_names) {
                    Ok(()) => self.advance(pc, 0),
                    Err(e) => Err(e),
                }
            },
            OPTCODE::GetObjectField { field_name } => {
                match self.get_object_field(field_name) {
                    Ok(()) => self.advance(pc, 0),
                    Err(e) => Err(e),
                }
            },
            OPTCODE::SetObjectField { id, field_name } => {
                match self.set_object_field(*id, field_name) {
                    Ok(()) => self.advance(pc, 0),
                    Err(e) => Err(e),
                }
            },
            OPTCODE::CreateArray { init_values_count } => {
                match self.create_array(*init_values_count) {
                    Ok(()) => self.advance(pc, 0),
                    Err(e) => Err(e),
                }
            },
            OPTCODE::DefineArray { id, init_values_count } => {
                match self.create_array(*init_values_count) {
                    Ok(()) => {},
                    Err(e) => return Err(e),
                }
                let ghost mid = *self;
                match self.define_var(*id) {
                    Ok(()) => {
                        assert forall|j: int| j != *id implies self.var(j) == old(self).var(j) by {
                            assert(self.var(j) == mid.var(j));
                            assert(mid.var(j) == old(self).var(j));
                        }
                        self.advance(pc, 0)
                    },
                    Err(e) => Err(e),
                }
            },
            OPTCODE::GetFromArray { id } => {
                match self.get_from_array_checked(*id) {
                    Ok(()) => self.advance(pc, 0),
                    Err(e) => Err(e),
                }
            },
            OPTCODE::AssignAtArrayIndex { id } => {
                match self.set_at_array_checked(*id) {
                    Ok(()) => self.advance(pc, 0),
                    Err(e) => Err(e),
                }
            },
            OPTCODE::PushToArray { id } => {
                match self.push_to_array_checked(*id) {
                    Ok(()) => self.advance(pc, 0),
                    Err(e) => Err(e),
                }
            },
            OPTCODE::ArrayLength { id } => {
                match self.get_array_length(*id) {
                    Ok(()) => self.advance(pc, 0),
                    Err(e) => Err(e),
                }
            },
            OPTCODE::AssignVar { id } => {
                match self.assign_var_checked(*id) {
                    Ok(()) => self.advance(pc, 0),
                    Err(e) => Err(e),
                }
            },
            OPTCODE::CallSpecialFunction { function } => self.call_special_function(*function, pc),
            OPTCODE::SimpleLoop { .. } => self.simple_loop_checked(pc),
            OPTCODE::PushToTestingStack { duplicate_stackvalue } => {
                match self.push_to_testing_stack(*duplicate_stackvalue) {
                    Ok(()) => self.advance(pc, 0),
                    Err(e) => Err(e),
                }
            },
            OPTCODE::Break | OPTCODE::Continue => Err(VmError::UnloweredBreakOrContinue),
        }
    }

    /// Runs a builtin operation.
    pub fn call_special_function(&mut self, function: SpecialFunctions, pc: usize) -> (r: Result<Step, VmError>)
        requires
            old(self).wf(),
            !old(self).is_awaiting(),
            pc < usize::MAX,
        ensures
            final(self).wf(),
            special_post(*old(self), *final(self), function, pc, r),
            final(self).is_awaiting() == (r matches Ok(Step::Request(HostRequest::Input))),
            same_loops(*old(self), *final(self)),
            forall|j: int| #[trigger] final(self).var(j) == old(self).var(j),
            final(self).keeps_variables(*old(self)),
            final(self).float_texts() == old(self).float_texts(),
            final(self).depth() == old(self).depth(),
            final(self).calls() == old(self).calls(),
            final(self).testing_view() == old(self).testing_view(),
            final(self).is_halted() == old(self).is_halted(),
    {
        proof {
            lemma_views(self.stack@);
        }
        match function {
            SpecialFunctions::Print { newline } => {
                let n = self.stack.len();
                if n == 0 {
                    return Err(VmError::StackUnderflow);
                }
                match format_for_print(&self.stack[n - 1], newline, &self.texts) {
                    Ok(text) => {
                        let _ = self.pop();
                        match self.advance(pc, 0) {
                            Ok(_) => Ok(Step::Print { text }),
                            Err(e) => Err(e),
                        }
                    },
                    Err(bits) => Ok(Step::Request(HostRequest::FloatText { bits })),
                }
            },
            SpecialFunctions::Input => {
                self.awaiting = true;
                Ok(Step::Request(HostRequest::Input))
            },
            SpecialFunctions::Random => {
                let ghost s = self.stack_view();
                let max = match self.pop() {
                    Ok(v) => match v {
                        StackValue::Int { value } => value,
                        _ => {
                            assert(!(v.view() is Int));
                            return Err(VmError::TypeMismatch);
                        },
                    },
                    Err(e) => return Err(e),
                };
                let min = match self.pop() {
                    Ok(v) => match v {
                        StackValue::Int { value } => value,
                        _ => {
                            assert(!(v.view() is Int));
                            assert(s.drop_last().last() == s[s.len() - 2]);
                            return Err(VmError::TypeMismatch);
                        },
                    },
                    Err(e) => return Err(e),
                };
                assert(s.drop_last().last() == s[s.len() - 2]);
                assert(s.drop_last().drop_last() =~= s.subrange(0, s.len() - 2));
                if min >= max {
                    return Err(VmError::EmptyRandomRange);
                }
                self.push_stackvalue(StackValue::Int { value: random_in_range(min, max) });
                assert(self.stack_view().drop_last() =~= s.subrange(0, s.len() - 2));
                self.advance(pc, 0)
            },
            SpecialFunctions::Length => {
                let n = self.stack.len();
                if n == 0 {
                    return Err(VmError::StackUnderflow);
                }
                match length_of(&self.stack[n - 1], &self.texts) {
                    Ok(len) => {
                        if len as u64 > i64::MAX as u64 {
                            return Err(VmError::IntegerOverflow);
                        }
                        let _ = self.pop();
                        self.push_stackvalue(StackValue::Int { value: len as i64 });
                        self.advance(pc, 0)
                    },
                    Err(bits) => Ok(Step::Request(HostRequest::FloatText { bits })),
                }
            },
        }
    }
}

proof fn lemma_loop_body_none(program: Seq<OPTCODE>, sites: Seq<int>, k: int)
    requires
        0 <= k <= sites.len(),
        loop_body(program, sites.take(k)) is None,
    ensures
        loop_body(program, sites) is None,
    decreases sites.len() - k,
{
    if k < sites.len() {
        assert(sites.take(k + 1).drop_last() =~= sites.take(k));
        lemma_loop_body_none(program, sites, k + 1);
    } else {
        assert(sites.take(k) =~= sites);
    }
}

/// An error result constrains nothing of the machine after it, so halting it afterwards keeps
/// what a step states.
proof fn lemma_error_post(m0: VM, m1: VM, m2: VM, program: Seq<OPTCODE>, r: Result<Step, VmError>)
    requires
        r is Err,
        !m0.is_halted() && !m0.is_awaiting(),
        m2 == (VM { halted: true, ..m1 }),
        match loop_body(program, loop_sites(m0)) {
            Some(code) => cur_pc(m0) < code.len() ==> step_post(m0, m1, code, r),
            None => true,
        },
    ensures
        match loop_body(program, loop_sites(m0)) {
            Some(code) => cur_pc(m0) < code.len() ==> step_post(m0, m2, code, r),
            None => true,
        },
{
    assert(m2.stack_view() == m1.stack_view());
    assert(m2.loops() == m1.loops());
    assert(cur_pc(m2) == cur_pc(m1));
    assert(forall|j: int| m2.var(j) == m1.var(j));
    assert(m2.calls() == m1.calls());
    assert(m2.testing_view() == m1.testing_view());
}

proof fn lemma_views_push(s: Seq<StackValue>, v: StackValue)
    ensures
        views(s.push(v)) == views(s).push(v.view()),
{
    assert(s.push(v).drop_last() =~= s);
}

} // verus!
