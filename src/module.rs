//! Function signatures and definitions.
use vstd::prelude::*;

use crate::block::Block;
use crate::BuiltinTypes;

verus! {

/// A function's name, argument list and return type.
#[derive(Debug)]
pub struct FunctionSignature {
    pub name: String,
    pub return_type: Option<BuiltinTypes>,
    pub args: Vec<FuncArg>,
}

impl FunctionSignature {
    /// A signature from its parts.
    pub fn new(func_name: String, args: Vec<FuncArg>, return_type: Option<BuiltinTypes>) -> (r:
        FunctionSignature)
        ensures
            r == (FunctionSignature { name: func_name, args, return_type }),
    {
        FunctionSignature { name: func_name, args, return_type }
    }
}

/// Whether a function returns nothing or a value.
#[derive(PartialEq, Eq, Structural, Clone, Copy, Debug)]
pub enum FunctionReturnType {
    NONE,
    BuiltinTypes,
}

/// One declared argument of a function.
#[derive(Debug)]
pub struct FuncArg {
    pub name: String,
    pub arg_type: BuiltinTypes,
}

/// Whether a definition is visible outside its module.
#[derive(PartialEq, Eq, Structural, Clone, Copy, Debug)]
pub enum VISIBILITY {
    PRIVATE,
    PUBLIC,
}

/// A function: its signature and its body.
#[derive(Debug)]
pub struct Function {
    pub signature: FunctionSignature,
    pub body: Block,
}

/// A signature with no arguments.
fn signature(name: &str, return_type: Option<BuiltinTypes>) -> (r: FunctionSignature)
    ensures
        r.name@ == name@,
        r.args@.len() == 0,
        r.return_type == return_type,
{
    FunctionSignature { name: String::from_str(name), args: Vec::new(), return_type }
}

/// The signatures of the standard functions: print with and without a newline, input, length,
/// a random float, and a random integer between two bounds.
pub fn get_std_functions() -> (r: Vec<FunctionSignature>)
    ensures
        r@.len() == 6,
        r@[0].name@ == "izvade"@ && r@[0].args@.len() == 0 && r@[0].return_type is None,
        r@[1].name@ == "izvadetp"@ && r@[1].args@.len() == 0 && r@[1].return_type is None,
        r@[2].name@ == "ievade"@ && r@[2].args@.len() == 0 && r@[2].return_type == Some(BuiltinTypes::String),
        r@[3].name@ == "garums"@ && r@[3].args@.len() == 0 && r@[3].return_type == Some(BuiltinTypes::Int),
        r@[4].name@ == "nejaušs"@ && r@[4].args@.len() == 0 && r@[4].return_type == Some(BuiltinTypes::Float),
        r@[5].name@ == "nejaušs_robežās"@ && r@[5].return_type == Some(BuiltinTypes::Float)
            && r@[5].args@.len() == 2
            && r@[5].args@[0].name@ == "min"@ && r@[5].args@[0].arg_type == BuiltinTypes::Int
            && r@[5].args@[1].name@ == "maks"@ && r@[5].args@[1].arg_type == BuiltinTypes::Int,
{
    let mut r: Vec<FunctionSignature> = Vec::new();
    r.push(signature("izvade", None));
    r.push(signature("izvadetp", None));
    r.push(signature("ievade", Some(BuiltinTypes::String)));
    r.push(signature("garums", Some(BuiltinTypes::Int)));
    r.push(signature("nejaušs", Some(BuiltinTypes::Float)));
    let mut args: Vec<FuncArg> = Vec::new();
    args.push(FuncArg { name: String::from_str("min"), arg_type: BuiltinTypes::Int });
    args.push(FuncArg { name: String::from_str("maks"), arg_type: BuiltinTypes::Int });
    r.push(FunctionSignature {
        name: String::from_str("nejaušs_robežās"),
        args,
        return_type: Some(BuiltinTypes::Float),
    });
    r
}

} // verus!
