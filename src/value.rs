use vstd::prelude::*;

verus! {

/// A runtime value. Floats are carried as their IEEE-754 bit pattern: the machine never
/// computes on them itself, it hands them to the host.
#[derive(Debug, PartialEq)]
pub enum StackValue {
    Bool { value: bool },
    Int { value: i64 },
    Float { bits: u64 },
    String { value: String },
    Array { items: Vec<StackValue> },
    Object { fields: Vec<ObjectField> },
}

/// One named field of an object value.
#[derive(Debug, PartialEq)]
pub struct ObjectField {
    pub name: String,
    pub value: StackValue,
}

/// The mathematical model of a runtime value.
pub enum Val {
    Bool(bool),
    Int(int),
    Float(u64),
    Str(Seq<char>),
    Array(Seq<Val>),
    Object(Seq<(Seq<char>, Val)>),
}

impl StackValue {
    /// The model of the value.
    pub open spec fn view(self) -> Val
        decreases self,
    {
        match self {
            StackValue::Bool { value } => Val::Bool(value),
            StackValue::Int { value } => Val::Int(value as int),
            StackValue::Float { bits } => Val::Float(bits),
            StackValue::String { value } => Val::Str(value@),
            StackValue::Array { items } => Val::Array(views(items@)),
            StackValue::Object { fields } => Val::Object(field_views(fields@)),
        }
    }
}

/// The models of a sequence of values, in order.
pub open spec fn views(s: Seq<StackValue>) -> Seq<Val>
    decreases s,
{
    if s.len() == 0 {
        Seq::empty()
    } else {
        views(s.drop_last()).push(s.last().view())
    }
}

/// The models of a sequence of object fields, in order, as (name, value) pairs.
pub open spec fn field_views(s: Seq<ObjectField>) -> Seq<(Seq<char>, Val)>
    decreases s,
{
    if s.len() == 0 {
        Seq::empty()
    } else {
        field_views(s.drop_last()).push((s.last().name@, s.last().value.view()))
    }
}

/// The models line up with the values, index by index.
pub proof fn lemma_views(s: Seq<StackValue>)
    ensures
        views(s).len() == s.len(),
        forall|i: int| 0 <= i < s.len() ==> #[trigger] views(s)[i] == s[i].view(),
    decreases s.len(),
{
    if s.len() > 0 {
        lemma_views(s.drop_last());
    }
}

/// The field models line up with the fields, index by index.
pub proof fn lemma_field_views(s: Seq<ObjectField>)
    ensures
        field_views(s).len() == s.len(),
        forall|i: int|
            0 <= i < s.len() ==> #[trigger] field_views(s)[i] == (s[i].name@, s[i].value.view()),
    decreases s.len(),
{
    if s.len() > 0 {
        lemma_field_views(s.drop_last());
    }
}

impl StackValue {
    /// A deep copy of the value.
    pub fn copy_value(&self) -> (r: StackValue)
        ensures
            r.view() == self.view(),
        decreases self,
    {
        match self {
            StackValue::Bool { value } => StackValue::Bool { value: *value },
            StackValue::Int { value } => StackValue::Int { value: *value },
            StackValue::Float { bits } => StackValue::Float { bits: *bits },
            StackValue::String { value } => StackValue::String { value: value.clone() },
            StackValue::Array { items } => {
                let mut out: Vec<StackValue> = Vec::new();
                let mut i: usize = 0;
                while i < items.len()
                    invariant
                        *self == (StackValue::Array { items: *items }),
                        i <= items@.len(),
                        out@.len() == i,
                        forall|j: int| 0 <= j < i ==> out@[j].view() == #[trigger] items@[j].view(),
                    decreases items@.len() - i,
                {
                    proof {
                        assert(decreases_to!(*self => self->items));
                        assert(decreases_to!(*items => items[i as int]));
                    }
                    out.push(items[i].copy_value());
                    i = i + 1;
                }
                proof {
                    lemma_views(out@);
                    lemma_views(items@);
                    assert(views(out@) =~= views(items@));
                }
                StackValue::Array { items: out }
            },
            StackValue::Object { fields } => {
                let mut out: Vec<ObjectField> = Vec::new();
                let mut i: usize = 0;
                while i < fields.len()
                    invariant
                        *self == (StackValue::Object { fields: *fields }),
                        i <= fields@.len(),
                        out@.len() == i,
                        forall|j: int|
                            0 <= j < i ==> out@[j].name@ == (#[trigger] fields@[j]).name@
                                && out@[j].value.view() == fields@[j].value.view(),
                    decreases fields@.len() - i,
                {
                    proof {
                        assert(decreases_to!(*self => self->fields));
                        assert(decreases_to!(*fields => fields[i as int]));
                        assert(decreases_to!(fields[i as int] => fields[i as int].value));
                    }
                    let v = fields[i].value.copy_value();
                    out.push(ObjectField { name: fields[i].name.clone(), value: v });
                    i = i + 1;
                }
                proof {
                    lemma_field_views(out@);
                    lemma_field_views(fields@);
                    assert(field_views(out@) =~= field_views(fields@));
                }
                StackValue::Object { fields: out }
            },
        }
    }
}

} // verus!
