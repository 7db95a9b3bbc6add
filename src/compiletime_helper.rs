//! Compile-time symbol tables: variables, arrays, objects and functions, scoped by
//! (syntax-node id, module path), sharing one id counter; and a type stack for binary
//! operators.
use vstd::prelude::*;

use crate::bytecode::BINOP;
use crate::module::FuncArg;
use crate::typestack::{apply_binop, binop_result, opt_type_view, type_views};
use crate::{BuiltinTypes, ObjectFieldType, Scope, TypeModel};

verus! {

#[derive(Debug)]
pub struct CompileTimeVariable {
    pub id: usize,
    pub name: String,
    pub data_type: BuiltinTypes,
    pub scope: Scope,
    pub is_exported: bool,
}

/// A name brought from one module into another.
#[derive(Debug, Clone)]
pub struct CompileTimeImport {
    pub name: String,
    pub origin: String,
    pub imported_into: String,
}

#[derive(Debug)]
pub struct CompileTimeArray {
    pub id: usize,
    pub name: String,
    pub data_type: BuiltinTypes,
    pub length: usize,
    pub scope: Scope,
    pub is_exported: bool,
}

#[derive(Debug)]
pub struct CompileTimeFunction {
    pub id: usize,
    pub name: String,
    pub arguments: Vec<FuncArg>,
    pub scope: Scope,
    pub return_type: Option<BuiltinTypes>,
    pub is_exported: bool,
}

/// A declared object shape (a struct definition) and the module it was declared in.
#[derive(Debug)]
pub struct ObjectDefinitionDefinition {
    pub module_defined_in: String,
    pub name: String,
    pub fields: Vec<ObjectFieldType>,
}

/// An object. Its fields own the ids that follow its own, one per field in declaration order.
#[derive(Debug)]
pub struct CompileTimeObject {
    pub id: usize,
    pub name: String,
    pub data_type: BuiltinTypes,
    pub scope: Scope,
    pub is_exported: bool,
}

/// Why a definition was refused.
#[derive(PartialEq, Eq, Structural, Clone, Copy, Debug)]
pub enum DefineError {
    /// A variable, array or object of that name already exists in the same scope.
    AlreadyDefined,
    /// That name is imported into the target module.
    AlreadyImported,
}

/// The compile-time tables of one compilation.
pub struct CompileTimeHelper {
    pub stack: Vec<BuiltinTypes>,
    pub source_files: Vec<String>,
    pub source_file_paths: Vec<String>,
    pub current_file: usize,
    pub defined_functions: Vec<CompileTimeFunction>,
    pub defined_variables: Vec<CompileTimeVariable>,
    pub defined_arrays: Vec<CompileTimeArray>,
    pub defined_object_definitions: Vec<ObjectDefinitionDefinition>,
    pub defined_objects: Vec<CompileTimeObject>,
    pub definition_counter: usize,
    pub imports: Vec<CompileTimeImport>,
}

/// The outcome that a definition of `name` in `scope` has against the tables of `h`.
pub open spec fn definition_outcome(h: CompileTimeHelper, name: Seq<char>, scope: Scope) -> Result<
    (),
    DefineError,
> {
    if name_taken(h, name, scope) {
        Err(DefineError::AlreadyDefined)
    } else if imported_into(h, name, scope.module_name@) {
        Err(DefineError::AlreadyImported)
    } else {
        Ok(())
    }
}

/// A variable, array or object named `name` exists in `scope`.
pub open spec fn name_taken(h: CompileTimeHelper, name: Seq<char>, scope: Scope) -> bool {
    ||| exists|i: int|
        0 <= i < h.defined_variables@.len() && #[trigger] h.defined_variables@[i].name@ == name
            && h.defined_variables@[i].scope.same(scope)
    ||| exists|i: int|
        0 <= i < h.defined_objects@.len() && #[trigger] h.defined_objects@[i].name@ == name
            && h.defined_objects@[i].scope.same(scope)
    ||| exists|i: int|
        0 <= i < h.defined_arrays@.len() && #[trigger] h.defined_arrays@[i].name@ == name
            && h.defined_arrays@[i].scope.same(scope)
}

/// An import record brings `name` into module `module`.
pub open spec fn imported_into(h: CompileTimeHelper, name: Seq<char>, module: Seq<char>) -> bool {
    exists|i: int|
        0 <= i < h.imports@.len() && #[trigger] h.imports@[i].name@ == name && h.imports@[i].imported_into@
            == module
}

/// The effect of defining a variable named `name` in `scope`, taking `h0` to `h1`.
pub open spec fn var_definition(
    h0: CompileTimeHelper,
    h1: CompileTimeHelper,
    name: Seq<char>,
    scope: Scope,
    r: Result<usize, DefineError>,
) -> bool {
    &&& r == match definition_outcome(h0, name, scope) {
        Err(e) => Err(e),
        Ok(_) => Ok(h0.next_id()),
    }
    &&& r is Ok ==> {
        &&& h1.defined_variables@.len() == h0.defined_variables@.len() + 1
        &&& h1.defined_variables@.drop_last() == h0.defined_variables@
        &&& h1.defined_variables@.last().id == h0.next_id()
        &&& h1.defined_variables@.last().name@ == name
        &&& h1.defined_variables@.last().scope.same(scope)
        &&& h1.next_id() == h0.next_id() + 1
    }
    &&& r is Err ==> h1.defined_variables == h0.defined_variables && h1.next_id() == h0.next_id()
    &&& h1.defined_objects == h0.defined_objects
    &&& h1.defined_arrays == h0.defined_arrays
    &&& h1.imports == h0.imports
}

/// `i` is the first object named `name` in `scope`.
pub open spec fn first_object(h: CompileTimeHelper, name: Seq<char>, scope: Scope, i: int) -> bool {
    &&& 0 <= i < h.defined_objects@.len()
    &&& h.defined_objects@[i].name@ == name
    &&& h.defined_objects@[i].scope.same(scope)
    &&& forall|j: int|
        0 <= j < i ==> !(h.defined_objects@[j].name@ == name && h.defined_objects@[j].scope.same(scope))
}

/// `k` is the position of the first field named `name`.
pub open spec fn field_position(fields: Seq<ObjectFieldType>, name: Seq<char>, k: int) -> bool {
    &&& 0 <= k < fields.len()
    &&& fields[k].name@ == name
    &&& forall|j: int| 0 <= j < k ==> fields[j].name@ != name
}

/// `id` is the id of the field named `name` of object `o`: one past the object's own id plus
/// the field's position.
pub open spec fn field_id_is(o: CompileTimeObject, name: Seq<char>, id: int) -> bool {
    match o.data_type {
        BuiltinTypes::Object { fields } => exists|k: int| #[trigger] field_position(fields@, name, k)
            && id == o.id + 1 + k,
        _ => false,
    }
}

/// `i` is the first variable named `name` in `scope`.
pub open spec fn first_var(h: CompileTimeHelper, name: Seq<char>, scope: Scope, i: int) -> bool {
    &&& 0 <= i < h.defined_variables@.len()
    &&& h.defined_variables@[i].name@ == name
    &&& h.defined_variables@[i].scope.same(scope)
    &&& forall|j: int|
        0 <= j < i ==> !(h.defined_variables@[j].name@ == name && h.defined_variables@[j].scope.same(scope))
}

/// Defining the same name twice in one scope fails the second time with `AlreadyDefined`.
/// Defining it in two different scopes, where it is neither defined nor imported, succeeds
/// both times with two distinct ids, each found again by a lookup in its own scope.
pub proof fn law_scoped_definitions(
    h0: CompileTimeHelper,
    h1: CompileTimeHelper,
    h2: CompileTimeHelper,
    name: Seq<char>,
    s1: Scope,
    s2: Scope,
    r1: Result<usize, DefineError>,
    r2: Result<usize, DefineError>,
)
    requires
        var_definition(h0, h1, name, s1, r1),
        var_definition(h1, h2, name, s2, r2),
    ensures
        r1 is Ok && s2.same(s1) ==> r2 == Err::<usize, DefineError>(DefineError::AlreadyDefined),
        definition_outcome(h0, name, s1) is Ok && definition_outcome(h0, name, s2) is Ok && !s2.same(s1) ==> {
            &&& r1 is Ok && r2 is Ok && r1.unwrap() != r2.unwrap()
            &&& exists|i: int| first_var(h2, name, s1, i) && h2.defined_variables@[i].id == r1.unwrap()
            &&& exists|i: int| first_var(h2, name, s2, i) && h2.defined_variables@[i].id == r2.unwrap()
        },
{
    if r1 is Ok && s2.same(s1) {
        let k = h1.defined_variables@.len() - 1;
        assert(h1.defined_variables@[k].name@ == name);
        assert(name_taken(h1, name, s2));
    }
    if definition_outcome(h0, name, s1) is Ok && definition_outcome(h0, name, s2) is Ok && !s2.same(s1) {
        let n0 = h0.defined_variables@.len();
        assert forall|i: int| 0 <= i < h1.defined_variables@.len() && #[trigger] h1.defined_variables@[i].name@ == name
            implies !h1.defined_variables@[i].scope.same(s2) by {
            if i < n0 {
                assert(h1.defined_variables@[i] == h0.defined_variables@[i]);
            }
        }
        assert(!name_taken(h1, name, s2));
        assert(!imported_into(h1, name, s2.module_name@));
        let a = n0 as int;
        let b = n0 as int + 1;
        assert(h2.defined_variables@[a] == h1.defined_variables@[a]);
        assert(first_var(h2, name, s1, a)) by {
            assert forall|j: int| 0 <= j < a implies !(h2.defined_variables@[j].name@ == name
                && h2.defined_variables@[j].scope.same(s1)) by {
                assert(h2.defined_variables@[j] == h0.defined_variables@[j]);
                assert(h1.defined_variables@[j] == h0.defined_variables@[j]);
            }
        }
        assert(first_var(h2, name, s2, b)) by {
            assert forall|j: int| 0 <= j < b implies !(h2.defined_variables@[j].name@ == name
                && h2.defined_variables@[j].scope.same(s2)) by {
                if j < a {
                    assert(h2.defined_variables@[j] == h0.defined_variables@[j]);
                    assert(h1.defined_variables@[j] == h0.defined_variables@[j]);
                }
            }
        }
    }
}

fn taken_in_variables(defs: &Vec<CompileTimeVariable>, name: &String, scope: &Scope) -> (r: bool)
    ensures
        r == exists|i: int| 0 <= i < defs@.len() && #[trigger] defs@[i].name@ == name@ && defs@[i].scope.same(*scope),
{
    let mut i: usize = 0;
    while i < defs.len()
        invariant
            i <= defs@.len(),
            forall|j: int| 0 <= j < i ==> !(#[trigger] defs@[j].name@ == name@ && defs@[j].scope.same(*scope)),
        decreases defs@.len() - i,
    {
        if defs[i].name == *name && defs[i].scope == *scope {
            assert(defs@[i as int].name@ == name@);
            return true;
        }
        i = i + 1;
    }
    false
}

fn taken_in_objects(defs: &Vec<CompileTimeObject>, name: &String, scope: &Scope) -> (r: bool)
    ensures
        r == exists|i: int| 0 <= i < defs@.len() && #[trigger] defs@[i].name@ == name@ && defs@[i].scope.same(*scope),
{
    let mut i: usize = 0;
    while i < defs.len()
        invariant
            i <= defs@.len(),
            forall|j: int| 0 <= j < i ==> !(#[trigger] defs@[j].name@ == name@ && defs@[j].scope.same(*scope)),
        decreases defs@.len() - i,
    {
        if defs[i].name == *name && defs[i].scope == *scope {
            assert(defs@[i as int].name@ == name@);
            return true;
        }
        i = i + 1;
    }
    false
}

fn taken_in_arrays(defs: &Vec<CompileTimeArray>, name: &String, scope: &Scope) -> (r: bool)
    ensures
        r == exists|i: int| 0 <= i < defs@.len() && #[trigger] defs@[i].name@ == name@ && defs@[i].scope.same(*scope),
{
    let mut i: usize = 0;
    while i < defs.len()
        invariant
            i <= defs@.len(),
            forall|j: int| 0 <= j < i ==> !(#[trigger] defs@[j].name@ == name@ && defs@[j].scope.same(*scope)),
        decreases defs@.len() - i,
    {
        if defs[i].name == *name && defs[i].scope == *scope {
            assert(defs@[i as int].name@ == name@);
            return true;
        }
        i = i + 1;
    }
    false
}

fn imported(imports: &Vec<CompileTimeImport>, name: &String, module: &String) -> (r: bool)
    ensures
        r == exists|i: int|
            0 <= i < imports@.len() && #[trigger] imports@[i].name@ == name@ && imports@[i].imported_into@ == module@,
{
    let mut i: usize = 0;
    while i < imports.len()
        invariant
            i <= imports@.len(),
            forall|j: int| 0 <= j < i ==> !(#[trigger] imports@[j].name@ == name@ && imports@[j].imported_into@ == module@),
        decreases imports@.len() - i,
    {
        if imports[i].name == *name && imports[i].imported_into == *module {
            assert(imports@[i as int].name@ == name@);
            return true;
        }
        i = i + 1;
    }
    false
}

impl CompileTimeHelper {
    /// The id that the next definition gets.
    pub closed spec fn next_id(self) -> usize {
        self.definition_counter
    }

    /// The compile-time type stack, bottom first.
    pub closed spec fn type_stack(self) -> Seq<TypeModel> {
        type_views(self.stack@)
    }

    /// Tables for a compilation that starts in the given source file.
    pub fn new(source_file: String, path: String) -> (r: CompileTimeHelper)
        ensures
            r.next_id() == 0,
            r.type_stack() == Seq::<TypeModel>::empty(),
            r.defined_variables@.len() == 0,
            r.defined_objects@.len() == 0,
            r.defined_arrays@.len() == 0,
            r.defined_functions@.len() == 0,
            r.imports@.len() == 0,
            r.source_file_paths@.len() == 1 && r.source_file_paths@[0] == path,
            r.source_files@.len() == 1 && r.source_files@[0] == source_file,
            r.current_file == 0,
    {
        let r = CompileTimeHelper {
            stack: Vec::new(),
            source_files: vec![source_file],
            source_file_paths: vec![path],
            current_file: 0,
            defined_functions: Vec::new(),
            defined_variables: Vec::new(),
            defined_arrays: Vec::new(),
            definition_counter: 0,
            imports: Vec::new(),
            defined_object_definitions: Vec::new(),
            defined_objects: Vec::new(),
        };
        assert(r.type_stack() =~= Seq::<TypeModel>::empty());
        r
    }

    /// Decides whether `name` may be defined in `scope`.
    fn check_definition(&self, name: &String, scope: &Scope) -> (r: Result<(), DefineError>)
        ensures
            r == definition_outcome(*self, name@, *scope),
    {
        if taken_in_variables(&self.defined_variables, name, scope) || taken_in_objects(
            &self.defined_objects,
            name,
            scope,
        ) || taken_in_arrays(&self.defined_arrays, name, scope) {
            return Err(DefineError::AlreadyDefined);
        }
        if imported(&self.imports, name, &scope.module_name) {
            return Err(DefineError::AlreadyImported);
        }
        Ok(())
    }

    /// Defines a variable and gives its id; fails when the name is taken in the same scope or
    /// imported into the scope's module.
    pub fn def_var(&mut self, name: String, data_type: BuiltinTypes, scope: Scope, is_exported: bool) -> (r:
        Result<usize, DefineError>)
        requires
            old(self).next_id() < usize::MAX,
        ensures
            var_definition(*old(self), *final(self), name@, scope, r),
            r is Ok ==> final(self).defined_variables@.last().data_type == data_type
                && final(self).defined_variables@.last().is_exported == is_exported,
            final(self).defined_functions == old(self).defined_functions,
            final(self).type_stack() == old(self).type_stack(),
    {
        match self.check_definition(&name, &scope) {
            Err(e) => Err(e),
            Ok(()) => {
                let id = self.definition_counter;
                let ghost before = self.defined_variables@;
                self.defined_variables.push(CompileTimeVariable { id, name, data_type, scope, is_exported });
                assert(self.defined_variables@.drop_last() =~= before);
                self.definition_counter = id + 1;
                Ok(id)
            },
        }
    }

    /// Defines an object; its own id comes first, then one id per field in declaration order.
    /// Fails as `def_var` does.
    pub fn def_object(&mut self, name: String, scope: Scope, is_exported: bool, fields: Vec<ObjectFieldType>) -> (r:
        Result<usize, DefineError>)
        requires
            old(self).next_id() + 1 + fields@.len() <= usize::MAX,
        ensures
            r == match definition_outcome(*old(self), name@, scope) {
                Err(e) => Err(e),
                Ok(_) => Ok(old(self).next_id()),
            },
            r is Ok ==> final(self).next_id() == old(self).next_id() + 1 + fields@.len()
                && final(self).defined_objects@.drop_last() == old(self).defined_objects@
                && final(self).defined_objects@.last().id == old(self).next_id()
                && final(self).defined_objects@.last().name@ == name@
                && final(self).defined_objects@.last().scope.same(scope)
                && final(self).defined_objects@.last().data_type == (BuiltinTypes::Object { fields }),
            r is Err ==> final(self).next_id() == old(self).next_id() && final(self).defined_objects == old(self).defined_objects,
            final(self).defined_variables == old(self).defined_variables,
            final(self).defined_arrays == old(self).defined_arrays,
            final(self).imports == old(self).imports,
    {
        match self.check_definition(&name, &scope) {
            Err(e) => Err(e),
            Ok(()) => {
                let id = self.definition_counter;
                let n = fields.len();
                let ghost before = self.defined_objects@;
                self.defined_objects.push(
                    CompileTimeObject { data_type: BuiltinTypes::Object { fields }, name, id, scope, is_exported },
                );
                assert(self.defined_objects@.drop_last() =~= before);
                self.definition_counter = id + 1 + n;
                Ok(id)
            },
        }
    }

    /// Defines an array of the given element type and length; fails as `def_var` does.
    pub fn def_array(&mut self, name: &str, data_type: BuiltinTypes, initial_length: usize, scope: Scope, is_exported: bool) -> (r:
        Result<usize, DefineError>)
        requires
            old(self).next_id() < usize::MAX,
        ensures
            r == match definition_outcome(*old(self), name@, scope) {
                Err(e) => Err(e),
                Ok(_) => Ok(old(self).next_id()),
            },
            r is Ok ==> final(self).next_id() == old(self).next_id() + 1
                && final(self).defined_arrays@.drop_last() == old(self).defined_arrays@
                && final(self).defined_arrays@.last().id == old(self).next_id()
                && final(self).defined_arrays@.last().name@ == name@
                && final(self).defined_arrays@.last().scope.same(scope)
                && final(self).defined_arrays@.last().data_type == data_type
                && final(self).defined_arrays@.last().length == initial_length,
            r is Err ==> final(self).next_id() == old(self).next_id() && final(self).defined_arrays == old(self).defined_arrays,
            final(self).defined_variables == old(self).defined_variables,
            final(self).defined_objects == old(self).defined_objects,
            final(self).imports == old(self).imports,
    {
        let name = String::from_str(name);
        match self.check_definition(&name, &scope) {
            Err(e) => Err(e),
            Ok(()) => {
                let id = self.definition_counter;
                let ghost before = self.defined_arrays@;
                self.defined_arrays.push(
                    CompileTimeArray { name, data_type, length: initial_length, scope, id, is_exported },
                );
                assert(self.defined_arrays@.drop_last() =~= before);
                self.definition_counter = id + 1;
                Ok(id)
            },
        }
    }

    /// Registers a function signature and gives its id.
    pub fn def_function(
        &mut self,
        name: String,
        arguments: Vec<FuncArg>,
        scope: Scope,
        is_exported: bool,
        return_type: Option<BuiltinTypes>,
    ) -> (r: usize)
        requires
            old(self).next_id() < usize::MAX,
        ensures
            r == old(self).next_id(),
            final(self).next_id() == old(self).next_id() + 1,
            final(self).defined_functions@ == old(self).defined_functions@.push(
                CompileTimeFunction { id: r, name, arguments, scope, return_type, is_exported },
            ),
            final(self).defined_variables == old(self).defined_variables,
            final(self).defined_objects == old(self).defined_objects,
            final(self).defined_arrays == old(self).defined_arrays,
            final(self).imports == old(self).imports,
    {
        let id = self.definition_counter;
        self.defined_functions.push(CompileTimeFunction { id, name, arguments, scope, return_type, is_exported });
        self.definition_counter = id + 1;
        id
    }

    /// Records that `name` from module `origin` is imported into module `imported_into`.
    pub fn import(&mut self, name: String, origin: String, imported_into: String)
        ensures
            final(self).imports@ == old(self).imports@.push(CompileTimeImport { name, origin, imported_into }),
            final(self).next_id() == old(self).next_id(),
            final(self).defined_variables == old(self).defined_variables,
            final(self).defined_objects == old(self).defined_objects,
            final(self).defined_arrays == old(self).defined_arrays,
    {
        self.imports.push(CompileTimeImport { name, origin, imported_into });
    }

    /// The first variable named `name` in exactly `scope`.
    pub fn find_variable(&self, name: &String, scope: &Scope) -> (r: Option<&CompileTimeVariable>)
        ensures
            r is None ==> forall|i: int| !first_var(*self, name@, *scope, i),
            r is Some ==> exists|i: int| first_var(*self, name@, *scope, i) && self.defined_variables@[i] == *r.unwrap(),
    {
        let mut i: usize = 0;
        while i < self.defined_variables.len()
            invariant
                i <= self.defined_variables@.len(),
                forall|j: int|
                    0 <= j < i ==> !(#[trigger] self.defined_variables@[j].name@ == name@
                        && self.defined_variables@[j].scope.same(*scope)),
            decreases self.defined_variables@.len() - i,
        {
            if self.defined_variables[i].name == *name && self.defined_variables[i].scope == *scope {
                assert(first_var(*self, name@, *scope, i as int));
                return Some(&self.defined_variables[i]);
            }
            i = i + 1;
        }
        proof {
            assert forall|k: int| !first_var(*self, name@, *scope, k) by {
                if 0 <= k < self.defined_variables@.len() && self.defined_variables@[k].name@ == name@ {
                }
            }
        }
        None
    }

    /// The first object named `name`, in any scope.
    pub fn get_object_if_exists(&self, name: &str) -> (r: Option<&CompileTimeObject>)
        ensures
            r is None ==> forall|i: int| 0 <= i < self.defined_objects@.len() ==> self.defined_objects@[i].name@ != name@,
            r is Some ==> exists|i: int|
                0 <= i < self.defined_objects@.len() && self.defined_objects@[i] == *r.unwrap() && r.unwrap().name@ == name@
                    && forall|j: int| 0 <= j < i ==> self.defined_objects@[j].name@ != name@,
    {
        let key = String::from_str(name);
        let mut i: usize = 0;
        while i < self.defined_objects.len()
            invariant
                i <= self.defined_objects@.len(),
                key@ == name@,
                forall|j: int| 0 <= j < i ==> self.defined_objects@[j].name@ != name@,
            decreases self.defined_objects@.len() - i,
        {
            if self.defined_objects[i].name == key {
                assert(self.defined_objects@[i as int].name@ == name@);
                assert(0 <= i < self.defined_objects@.len() && self.defined_objects@[i as int] == self.defined_objects@[i as int]
                    && self.defined_objects@[i as int].name@ == name@
                    && forall|j: int| 0 <= j < i ==> self.defined_objects@[j].name@ != name@);
                return Some(&self.defined_objects[i]);
            }
            i = i + 1;
        }
        None
    }

    /// The id of a field of the first object named `object_name` in `scope`: the object's id
    /// plus one plus the field's position in the declared field list.
    pub fn object_field_id(&self, object_name: &String, scope: &Scope, field_name: &String) -> (r: Option<usize>)
        ensures
            r is Some ==> exists|i: int| #[trigger] first_object(*self, object_name@, *scope, i)
                && field_id_is(self.defined_objects@[i], field_name@, r.unwrap() as int),
            r is None ==> forall|i: int| #[trigger] first_object(*self, object_name@, *scope, i)
                ==> forall|id: int| field_id_is(self.defined_objects@[i], field_name@, id) ==> id > usize::MAX,
    {
        let mut i: usize = 0;
        while i < self.defined_objects.len()
            invariant
                i <= self.defined_objects@.len(),
                forall|j: int|
                    0 <= j < i ==> !(#[trigger] self.defined_objects@[j].name@ == object_name@
                        && self.defined_objects@[j].scope.same(*scope)),
            decreases self.defined_objects@.len() - i,
        {
            if self.defined_objects[i].name == *object_name && self.defined_objects[i].scope == *scope {
                let obj = &self.defined_objects[i];
                proof {
                    assert(first_object(*self, object_name@, *scope, i as int));
                    assert forall|i2: int| #[trigger] first_object(*self, object_name@, *scope, i2) implies i2 == i by {
                        if i2 > i {
                            assert(self.defined_objects@[i as int].name@ == object_name@);
                        }
                    }
                }
                match &obj.data_type {
                    BuiltinTypes::Object { fields } => {
                        let mut k: usize = 0;
                        while k < fields.len()
                            invariant
                                k <= fields@.len(),
                                forall|j: int| 0 <= j < k ==> fields@[j].name@ != field_name@,
                                *obj == self.defined_objects@[i as int],
                                obj.data_type == (BuiltinTypes::Object { fields: *fields }),
                                first_object(*self, object_name@, *scope, i as int),
                                forall|i2: int| #[trigger] first_object(*self, object_name@, *scope, i2) ==> i2 == i,
                            decreases fields@.len() - k,
                        {
                            if fields[k].name == *field_name {
                                proof {
                                    assert(field_position(fields@, field_name@, k as int));
                                    assert forall|k2: int| #[trigger] field_position(fields@, field_name@, k2) implies k2 == k by {
                                        if k2 > k {
                                            assert(fields@[k as int].name@ == field_name@);
                                        }
                                    }
                                }
                                if obj.id == usize::MAX || k > usize::MAX - obj.id - 1 {
                                    return None;
                                }
                                proof {
                                    assert(self.defined_objects@[i as int].data_type == (BuiltinTypes::Object { fields: *fields }));
                                    assert(self.defined_objects@[i as int].data_type->fields == *fields);
                                    assert(field_position(self.defined_objects@[i as int].data_type->fields@, field_name@, k as int));
                                    assert(field_id_is(self.defined_objects@[i as int], field_name@, (obj.id + 1 + k) as int));
                                }
                                return Some(obj.id + 1 + k);
                            }
                            k = k + 1;
                        }
                        proof {
                            assert forall|k2: int| !field_position(fields@, field_name@, k2) by {}
                        }
                        return None;
                    },
                    _ => return None,
                }
            }
            i = i + 1;
        }
        None
    }

    /// The declared type of the definition with the given id: a variable's or object's type,
    /// or, for an array, the array type of its element type and length.
    pub fn get_var_type(&self, var_id: usize) -> (r: Option<BuiltinTypes>)
        ensures
            r is Some ==> (exists|i: int| 0 <= i < self.defined_variables@.len() && self.defined_variables@[i].id == var_id
                && r.unwrap().view() == self.defined_variables@[i].data_type.view())
                || (exists|i: int| 0 <= i < self.defined_objects@.len() && self.defined_objects@[i].id == var_id
                && r.unwrap().view() == self.defined_objects@[i].data_type.view())
                || (exists|i: int| 0 <= i < self.defined_arrays@.len() && self.defined_arrays@[i].id == var_id
                && r.unwrap().view() == TypeModel::Array(Box::new(self.defined_arrays@[i].data_type.view()), Some(self.defined_arrays@[i].length))),
            r is None ==> (forall|i: int| 0 <= i < self.defined_variables@.len() ==> self.defined_variables@[i].id != var_id)
                && (forall|i: int| 0 <= i < self.defined_objects@.len() ==> self.defined_objects@[i].id != var_id)
                && (forall|i: int| 0 <= i < self.defined_arrays@.len() ==> self.defined_arrays@[i].id != var_id),
    {
        let mut i: usize = 0;
        while i < self.defined_variables.len()
            invariant
                i <= self.defined_variables@.len(),
                forall|j: int| 0 <= j < i ==> self.defined_variables@[j].id != var_id,
            decreases self.defined_variables@.len() - i,
        {
            if self.defined_variables[i].id == var_id {
                return Some(self.defined_variables[i].data_type.copy_type());
            }
            i = i + 1;
        }
        let mut i: usize = 0;
        while i < self.defined_objects.len()
            invariant
                i <= self.defined_objects@.len(),
                forall|j: int| 0 <= j < i ==> self.defined_objects@[j].id != var_id,
            decreases self.defined_objects@.len() - i,
        {
            if self.defined_objects[i].id == var_id {
                return Some(self.defined_objects[i].data_type.copy_type());
            }
            i = i + 1;
        }
        let mut i: usize = 0;
        while i < self.defined_arrays.len()
            invariant
                i <= self.defined_arrays@.len(),
                forall|j: int| 0 <= j < i ==> self.defined_arrays@[j].id != var_id,
            decreases self.defined_arrays@.len() - i,
        {
            if self.defined_arrays[i].id == var_id {
                let e = self.defined_arrays[i].data_type.copy_type();
                return Some(BuiltinTypes::Array { element_type: Box::new(e), length: Some(self.defined_arrays[i].length) });
            }
            i = i + 1;
        }
        None
    }

    /// The element type and length of the array with the given id.
    pub fn get_array_type_and_length(&self, id: usize) -> (r: Option<(&BuiltinTypes, usize)>)
        ensures
            r is Some ==> exists|i: int| 0 <= i < self.defined_arrays@.len() && self.defined_arrays@[i].id == id
                && *r.unwrap().0 == self.defined_arrays@[i].data_type && r.unwrap().1 == self.defined_arrays@[i].length,
            r is None ==> forall|i: int| 0 <= i < self.defined_arrays@.len() ==> self.defined_arrays@[i].id != id,
    {
        let mut i: usize = 0;
        while i < self.defined_arrays.len()
            invariant
                i <= self.defined_arrays@.len(),
                forall|j: int| 0 <= j < i ==> self.defined_arrays@[j].id != id,
            decreases self.defined_arrays@.len() - i,
        {
            if self.defined_arrays[i].id == id {
                return Some((&self.defined_arrays[i].data_type, self.defined_arrays[i].length));
            }
            i = i + 1;
        }
        None
    }

    /// The return type of the function with the given id.
    pub fn get_func_return_type(&self, id: usize) -> (r: Option<&Option<BuiltinTypes>>)
        ensures
            r is Some ==> exists|i: int| 0 <= i < self.defined_functions@.len() && self.defined_functions@[i].id == id
                && *r.unwrap() == self.defined_functions@[i].return_type,
            r is None ==> forall|i: int| 0 <= i < self.defined_functions@.len() ==> self.defined_functions@[i].id != id,
    {
        let mut i: usize = 0;
        while i < self.defined_functions.len()
            invariant
                i <= self.defined_functions@.len(),
                forall|j: int| 0 <= j < i ==> self.defined_functions@[j].id != id,
            decreases self.defined_functions@.len() - i,
        {
            if self.defined_functions[i].id == id {
                return Some(&self.defined_functions[i].return_type);
            }
            i = i + 1;
        }
        None
    }

    /// The arguments of the function with the given id.
    pub fn get_func_args(&self, id: usize) -> (r: Option<&Vec<FuncArg>>)
        ensures
            r is Some ==> exists|i: int| 0 <= i < self.defined_functions@.len() && self.defined_functions@[i].id == id
                && *r.unwrap() == self.defined_functions@[i].arguments,
            r is None ==> forall|i: int| 0 <= i < self.defined_functions@.len() ==> self.defined_functions@[i].id != id,
    {
        let mut i: usize = 0;
        while i < self.defined_functions.len()
            invariant
                i <= self.defined_functions@.len(),
                forall|j: int| 0 <= j < i ==> self.defined_functions@[j].id != id,
            decreases self.defined_functions@.len() - i,
        {
            if self.defined_functions[i].id == id {
                return Some(&self.defined_functions[i].arguments);
            }
            i = i + 1;
        }
        None
    }

    /// Declares an object shape in the current module.
    pub fn define_struct(&mut self, name: String, fields: Vec<ObjectFieldType>)
        requires
            old(self).current_file < old(self).source_file_paths@.len(),
        ensures
            final(self).defined_object_definitions@.len() == old(self).defined_object_definitions@.len() + 1,
            final(self).defined_object_definitions@.drop_last() == old(self).defined_object_definitions@,
            final(self).defined_object_definitions@.last().name == name,
            final(self).defined_object_definitions@.last().fields == fields,
            final(self).defined_object_definitions@.last().module_defined_in@
                == old(self).source_file_paths@[old(self).current_file as int]@,
    {
        let module_defined_in = self.source_file_paths[self.current_file].clone();
        let ghost before = self.defined_object_definitions@;
        self.defined_object_definitions.push(ObjectDefinitionDefinition { module_defined_in, name, fields });
        assert(self.defined_object_definitions@.drop_last() =~= before);
    }

    /// The object shape of the given name declared in the current module.
    pub fn struct_exists(&self, name: &str) -> (r: Option<&ObjectDefinitionDefinition>)
        requires
            self.current_file < self.source_file_paths@.len(),
        ensures
            r is Some ==> exists|i: int| 0 <= i < self.defined_object_definitions@.len()
                && *r.unwrap() == self.defined_object_definitions@[i]
                && r.unwrap().name@ == name@ && r.unwrap().module_defined_in@
                == self.source_file_paths@[self.current_file as int]@
                && forall|j: int| 0 <= j < i ==> !(self.defined_object_definitions@[j].name@ == name@
                    && self.defined_object_definitions@[j].module_defined_in@ == self.source_file_paths@[self.current_file as int]@),
            r is None ==> forall|i: int| 0 <= i < self.defined_object_definitions@.len() ==> !(
                self.defined_object_definitions@[i].name@ == name@
                && self.defined_object_definitions@[i].module_defined_in@ == self.source_file_paths@[self.current_file as int]@),
    {
        let key = String::from_str(name);
        let module = &self.source_file_paths[self.current_file];
        let mut i: usize = 0;
        while i < self.defined_object_definitions.len()
            invariant
                self.current_file < self.source_file_paths@.len(),
                module@ == self.source_file_paths@[self.current_file as int]@,
                key@ == name@,
                i <= self.defined_object_definitions@.len(),
                forall|j: int| 0 <= j < i ==> !(self.defined_object_definitions@[j].name@ == name@
                    && self.defined_object_definitions@[j].module_defined_in@ == module@),
            decreases self.defined_object_definitions@.len() - i,
        {
            if self.defined_object_definitions[i].name == key
                && self.defined_object_definitions[i].module_defined_in == *module {
                return Some(&self.defined_object_definitions[i]);
            }
            i = i + 1;
        }
        None
    }

    /// Enters another module: its source becomes the current file.
    pub fn change_module(&mut self, file_content: String, path: String)
        requires
            old(self).current_file < usize::MAX,
        ensures
            final(self).source_files@ == old(self).source_files@.push(file_content),
            final(self).source_file_paths@ == old(self).source_file_paths@.push(path),
            final(self).current_file == old(self).current_file + 1,
    {
        self.source_files.push(file_content);
        self.source_file_paths.push(path);
        self.current_file = self.current_file + 1;
    }

    /// Returns to the module that was current before.
    pub fn switch_to_prev_module(&mut self)
        requires
            old(self).current_file > 0,
        ensures
            final(self).current_file == old(self).current_file - 1,
    {
        self.current_file = self.current_file - 1;
    }

    /// Pushes a type onto the type stack.
    pub fn push(&mut self, pushable_type: BuiltinTypes)
        ensures
            final(self).type_stack() == old(self).type_stack().push(pushable_type.view()),
    {
        self.stack.push(pushable_type);
        assert(self.type_stack() =~= old(self).type_stack().push(pushable_type.view()));
    }

    /// Pops the top type.
    pub fn pop(&mut self) -> (r: Option<BuiltinTypes>)
        ensures
            old(self).type_stack().len() == 0 ==> r is None,
            old(self).type_stack().len() > 0 ==> r is Some && r.unwrap().view() == old(self).type_stack().last()
                && final(self).type_stack() == old(self).type_stack().drop_last(),
    {
        let ghost before = self.stack@;
        let r = self.stack.pop();
        proof {
            if before.len() > 0 {
                assert(self.type_stack() =~= type_views(before).drop_last());
            }
        }
        r
    }

    /// Applies a binary operator to the two top types, as `TypeStack::binop` does.
    pub fn binop(&mut self, binop: BINOP) -> (r: Option<BuiltinTypes>)
        ensures
            old(self).type_stack().len() < 2 ==> r is None && final(self).type_stack() == old(self).type_stack(),
            old(self).type_stack().len() >= 2 ==> ({
                let s = old(self).type_stack();
                let res = binop_result(binop, s[s.len() - 2], s[s.len() - 1]);
                &&& opt_type_view(r) == res
                &&& final(self).type_stack() == match res {
                    Some(t) => s.subrange(0, s.len() - 2).push(t),
                    None => s.subrange(0, s.len() - 2),
                }
            }),
    {
        apply_binop(&mut self.stack, binop)
    }
}

} // verus!
