//! A compiler backend: an instruction set, a structured bytecode assembler, compile-time
//! symbol and type tables, a program linker and a stack-based virtual machine.
use vstd::prelude::*;

pub mod block;
pub mod bytecode;
pub mod compiletime_helper;
pub mod format_for_print;
pub mod math_operators;
pub mod module;
pub mod program;
pub mod stores;
pub mod typestack;
pub mod value;
pub mod vm;

pub use program::CelsiumProgram;

verus! {

/// A named field of an object type.
#[derive(Debug, PartialEq, Eq)]
pub struct ObjectFieldType {
    pub name: String,
    pub data_type: BuiltinTypes,
}

/// The compile-time type of a value.
#[derive(Debug, PartialEq, Eq)]
pub enum BuiltinTypes {
    Int,
    Bool,
    String,
    Object { fields: Vec<ObjectFieldType> },
    Array { element_type: Box<BuiltinTypes>, length: Option<usize> },
    Float,
}

/// The mathematical model of a compile-time type.
pub enum TypeModel {
    Int,
    Bool,
    Str,
    Float,
    Array(Box<TypeModel>, Option<usize>),
    Object(Seq<(Seq<char>, TypeModel)>),
}

impl BuiltinTypes {
    /// The model of the type.
    pub open spec fn view(self) -> TypeModel
        decreases self,
    {
        match self {
            BuiltinTypes::Int => TypeModel::Int,
            BuiltinTypes::Bool => TypeModel::Bool,
            BuiltinTypes::String => TypeModel::Str,
            BuiltinTypes::Float => TypeModel::Float,
            BuiltinTypes::Array { element_type, length } => TypeModel::Array(
                Box::new((*element_type).view()),
                length,
            ),
            BuiltinTypes::Object { fields } => TypeModel::Object(type_field_views(fields@)),
        }
    }

    /// A deep copy of the type.
    pub fn copy_type(&self) -> (r: BuiltinTypes)
        ensures
            r.view() == self.view(),
        decreases self,
    {
        match self {
            BuiltinTypes::Int => BuiltinTypes::Int,
            BuiltinTypes::Bool => BuiltinTypes::Bool,
            BuiltinTypes::String => BuiltinTypes::String,
            BuiltinTypes::Float => BuiltinTypes::Float,
            BuiltinTypes::Array { element_type, length } => {
                let e = (**element_type).copy_type();
                BuiltinTypes::Array { element_type: Box::new(e), length: *length }
            },
            BuiltinTypes::Object { fields } => {
                let mut out: Vec<ObjectFieldType> = Vec::new();
                let mut i: usize = 0;
                while i < fields.len()
                    invariant
                        *self == (BuiltinTypes::Object { fields: *fields }),
                        i <= fields@.len(),
                        out@.len() == i,
                        forall|j: int|
                            0 <= j < i ==> out@[j].name@ == (#[trigger] fields@[j]).name@
                                && out@[j].data_type.view() == fields@[j].data_type.view(),
                    decreases fields@.len() - i,
                {
                    proof {
                        assert(decreases_to!(*self => self->fields));
                        assert(decreases_to!(*fields => fields[i as int]));
                        assert(decreases_to!(fields[i as int] => fields[i as int].data_type));
                    }
                    let t = fields[i].data_type.copy_type();
                    out.push(ObjectFieldType { name: fields[i].name.clone(), data_type: t });
                    i = i + 1;
                }
                proof {
                    lemma_type_field_views(out@);
                    lemma_type_field_views(fields@);
                    assert(type_field_views(out@) =~= type_field_views(fields@));
                }
                BuiltinTypes::Object { fields: out }
            },
        }
    }
}

/// The models of a sequence of object field types, in order.
pub open spec fn type_field_views(s: Seq<ObjectFieldType>) -> Seq<(Seq<char>, TypeModel)>
    decreases s,
{
    if s.len() == 0 {
        Seq::empty()
    } else {
        type_field_views(s.drop_last()).push((s.last().name@, s.last().data_type.view()))
    }
}

/// The field models line up with the fields, index by index.
pub proof fn lemma_type_field_views(s: Seq<ObjectFieldType>)
    ensures
        type_field_views(s).len() == s.len(),
        forall|i: int|
            0 <= i < s.len() ==> #[trigger] type_field_views(s)[i] == (s[i].name@, s[i].data_type.view()),
    decreases s.len(),
{
    if s.len() > 0 {
        lemma_type_field_views(s.drop_last());
    }
}

/// The builtin operations that bypass user-defined call machinery.
#[derive(PartialEq, Eq, Structural, Clone, Copy, Debug)]
pub enum SpecialFunctions {
    Print { newline: bool },
    Input,
    Random,
    Length,
}

/// The lexical region a definition belongs to: a syntax-node id and a module path.
#[derive(Debug, Clone)]
pub struct Scope {
    pub ast_id: usize,
    pub module_name: String,
}

impl PartialEq for Scope {
    fn eq(&self, o: &Scope) -> (r: bool) {
        self.ast_id == o.ast_id && self.module_name == o.module_name
    }
}

impl vstd::std_specs::cmp::PartialEqSpecImpl for Scope {
    open spec fn obeys_eq_spec() -> bool {
        true
    }

    open spec fn eq_spec(&self, o: &Scope) -> bool {
        self.ast_id == o.ast_id && self.module_name@ == o.module_name@
    }
}

impl Scope {
    /// Two scopes are the same when both the node id and the module path match.
    pub open spec fn same(self, o: Scope) -> bool {
        self.ast_id == o.ast_id && self.module_name@ == o.module_name@
    }

    /// A copy of this scope with the same module path and another node id.
    pub fn change_ast_id(&mut self, new_id: usize) -> (r: Scope)
        ensures
            r.ast_id == new_id,
            r.module_name@ == old(self).module_name@,
            *final(self) == *old(self),
    {
        Scope { ast_id: new_id, module_name: self.module_name.clone() }
    }
}

} // verus!
