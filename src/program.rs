//! The program linker: flattens the main block and the function bodies into one instruction
//! array and resolves calls by name into jumps.
use vstd::prelude::*;

use crate::block::Block;
use crate::bytecode::OPTCODE;
use crate::module::Function;

verus! {

/// The flat layout: the main block, a return, then each function body followed by a return.
pub open spec fn flat_code(main: Seq<OPTCODE>, bodies: Seq<Seq<OPTCODE>>) -> Seq<OPTCODE>
    decreases bodies.len(),
{
    if bodies.len() == 0 {
        main.push(OPTCODE::Return)
    } else {
        flat_code(main, bodies.drop_last()) + bodies.last().push(OPTCODE::Return)
    }
}

/// The index at which the body of function `k` starts in the flat layout.
pub open spec fn function_start(main: Seq<OPTCODE>, bodies: Seq<Seq<OPTCODE>>, k: int) -> int {
    flat_code(main, bodies.take(k)).len() as int
}

/// The bodies of a list of functions.
pub open spec fn bodies_of(fs: Seq<Function>) -> Seq<Seq<OPTCODE>> {
    fs.map_values(|f: Function| f.body.bytecode@)
}

/// `k` is the first function named `name`.
pub open spec fn first_named(fs: Seq<Function>, name: Seq<char>, k: int) -> bool {
    &&& 0 <= k < fs.len()
    &&& fs[k].signature.name@ == name
    &&& forall|j: int| 0 <= j < k ==> fs[j].signature.name@ != name
}

/// What the linker makes of one instruction of the flat layout: a call of a defined function
/// becomes a jump to the start of the first function of that name; anything else stays.
pub open spec fn linked_instruction(
    i: OPTCODE,
    r: OPTCODE,
    main: Seq<OPTCODE>,
    fs: Seq<Function>,
) -> bool {
    match i {
        OPTCODE::CallFunction { name } => if exists|k: int| first_named(fs, name@, k) {
            let k = choose|k: int| first_named(fs, name@, k);
            r == (OPTCODE::JumpToFunction {
                target: function_start(main, bodies_of(fs), k) as usize,
                function_name: Some(name),
            })
        } else {
            r == i
        },
        _ => r == i,
    }
}

proof fn lemma_flat_code_len(main: Seq<OPTCODE>, bodies: Seq<Seq<OPTCODE>>, k: int)
    requires
        0 <= k < bodies.len(),
    ensures
        flat_code(main, bodies.take(k + 1)) == flat_code(main, bodies.take(k)) + bodies[k].push(
            OPTCODE::Return,
        ),
{
    assert(bodies.take(k + 1).drop_last() =~= bodies.take(k));
}

/// A linked program: one flat instruction array in which every call of a defined function is
/// a direct jump.
pub struct CelsiumProgram {
    main_block: Block,
}

impl CelsiumProgram {
    /// The linked instruction array.
    pub closed spec fn code(self) -> Seq<OPTCODE> {
        self.main_block.bytecode@
    }

    /// Links the main block and the functions: the main block and a return, then for each
    /// function its body and a return; then every call of a defined function becomes a jump
    /// to the start of the first function of that name.
    pub fn new(main_block: Block, functions: Vec<Function>) -> (r: CelsiumProgram)
        requires
            flat_code(main_block.bytecode@, bodies_of(functions@)).len() <= usize::MAX,
        ensures
            r.code().len() == flat_code(main_block.bytecode@, bodies_of(functions@)).len(),
            forall|i: int|
                0 <= i < r.code().len() ==> linked_instruction(
                    #[trigger] flat_code(main_block.bytecode@, bodies_of(functions@))[i],
                    r.code()[i],
                    main_block.bytecode@,
                    functions@,
                ),
    {
        let ghost main = main_block.bytecode@;
        let ghost fs = functions@;
        let ghost bodies = bodies_of(fs);
        let mut main_block = main_block;
        let mut functions = functions;
        let mut code: Vec<OPTCODE> = Vec::new();
        code.append(&mut main_block.bytecode);
        code.push(OPTCODE::Return);
        let mut starts: Vec<usize> = Vec::new();
        let mut names: Vec<String> = Vec::new();
        let mut k: usize = 0;
        let n = functions.len();
        proof {
            assert(bodies.take(0) =~= Seq::<Seq<OPTCODE>>::empty());
            assert(code@ =~= flat_code(main, bodies.take(0)));
        }
        while functions.len() > 0
            invariant
                k + functions@.len() == fs.len(),
                fs.len() == n,
                functions@ =~= fs.skip(k as int),
                bodies == bodies_of(fs),
                code@ == flat_code(main, bodies.take(k as int)),
                flat_code(main, bodies).len() <= usize::MAX,
                starts@.len() == k,
                names@.len() == k,
                forall|j: int| 0 <= j < k ==> #[trigger] starts@[j] == function_start(main, bodies, j),
                forall|j: int| 0 <= j < k ==> #[trigger] names@[j]@ == fs[j].signature.name@,
            decreases functions@.len(),
        {
            proof {
                lemma_flat_code_len(main, bodies, k as int);
                lemma_flat_code_prefix_len(main, bodies, k as int + 1);
            }
            let mut f = functions.remove(0);
            starts.push(code.len());
            names.push(f.signature.name.clone());
            code.append(&mut f.body.bytecode);
            code.push(OPTCODE::Return);
            k = k + 1;
            proof {
                assert(code@ =~= flat_code(main, bodies.take(k as int)));
            }
        }
        proof {
            assert(bodies.take(k as int) =~= bodies);
        }
        let ghost flat = code@;
        let mut i: usize = 0;
        while i < code.len()
            invariant
                flat == flat_code(main, bodies),
                code@.len() == flat.len(),
                k == fs.len(),
                bodies == bodies_of(fs),
                starts@.len() == k,
                names@.len() == k,
                forall|j: int| 0 <= j < k ==> #[trigger] starts@[j] == function_start(main, bodies, j),
                forall|j: int| 0 <= j < k ==> #[trigger] names@[j]@ == fs[j].signature.name@,
                forall|j: int| 0 <= j < i ==> linked_instruction(#[trigger] flat[j], code@[j], main, fs),
                forall|j: int| i <= j < flat.len() ==> #[trigger] code@[j] == flat[j],
            decreases flat.len() - i,
        {
            let mut replacement: Option<OPTCODE> = None;
            match &code[i] {
                OPTCODE::CallFunction { name } => {
                    let mut m: usize = 0;
                    while m < names.len()
                        invariant
                            m <= names@.len(),
                            names@.len() == k,
                            k == fs.len(),
                            forall|j: int| 0 <= j < k ==> #[trigger] names@[j]@ == fs[j].signature.name@,
                            forall|j: int| 0 <= j < m ==> fs[j].signature.name@ != name@,
                        ensures
                            m <= names@.len(),
                            forall|j: int| 0 <= j < m ==> fs[j].signature.name@ != name@,
                            m < names@.len() ==> names@[m as int]@ == name@,
                        decreases names@.len() - m,
                    {
                        if names[m] == *name {
                            break;
                        }
                        m = m + 1;
                    }
                    if m < names.len() {
                        proof {
                            assert(first_named(fs, name@, m as int));
                            assert forall|k2: int| first_named(fs, name@, k2) implies k2 == m by {
                                if k2 < m {
                                } else if k2 > m {
                                    assert(fs[m as int].signature.name@ == name@);
                                }
                            }
                        }
                        replacement = Some(OPTCODE::JumpToFunction {
                            target: starts[m],
                            function_name: Some(name.clone()),
                        });
                    } else {
                        proof {
                            assert forall|k2: int| !first_named(fs, name@, k2) by {
                                if 0 <= k2 < fs.len() && fs[k2].signature.name@ == name@ {
                                    assert(names@[k2]@ == name@);
                                }
                            }
                        }
                    }
                },
                _ => {},
            }
            match replacement {
                Some(r) => {
                    code.set(i, r);
                },
                None => {},
            }
            i = i + 1;
        }
        CelsiumProgram { main_block: Block { bytecode: code, scope: main_block.scope } }
    }

    /// The linked instruction array.
    pub fn get_bytecode(&self) -> (r: &Vec<OPTCODE>)
        ensures
            r@ == self.code(),
    {
        &self.main_block.bytecode
    }
}

proof fn lemma_flat_code_prefix_len(main: Seq<OPTCODE>, bodies: Seq<Seq<OPTCODE>>, k: int)
    requires
        0 <= k <= bodies.len(),
    ensures
        flat_code(main, bodies.take(k)).len() <= flat_code(main, bodies).len(),
    decreases bodies.len() - k,
{
    if k < bodies.len() {
        lemma_flat_code_len(main, bodies, k);
        lemma_flat_code_prefix_len(main, bodies, k + 1);
    } else {
        assert(bodies.take(k) =~= bodies);
    }
}

} // verus!
