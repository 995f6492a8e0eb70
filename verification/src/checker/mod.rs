//! The first semantic pass over a parsed file: function names, `main`,
//! parameter names and parameter types.

use crate::error::CompileError;
use crate::parser::ast::{
    item_models, param_model, param_models, Item, ItemModel, ParamModel, Type, TypeModel,
    lemma_type_children,
};
use crate::text::same_text;
use vstd::prelude::*;

verus! {

/// The names of the primitive types.
pub open spec fn is_primitive(name: Seq<char>) -> bool {
    name == "bool"@ || name == "u8"@ || name == "u16"@ || name == "u32"@ || name == "u64"@
        || name == "i8"@ || name == "i16"@ || name == "i32"@ || name == "i64"@
}

/// Whether a type exists: a primitive without type arguments, or `stream`
/// with exactly one type argument, which exists in turn.
pub open spec fn valid_type(t: TypeModel) -> bool
    decreases t,
{
    if is_primitive(t.name) {
        t.generics.len() == 0
    } else if t.name == "stream"@ {
        t.generics.len() == 1 && valid_type(t.generics[0])
    } else {
        false
    }
}

/// The first fault of a type, looking at the type itself before its
/// argument: an unknown name, or the wrong number of type arguments.
pub open spec fn check_type(t: TypeModel) -> Result<(), CompileError>
    decreases t,
{
    if is_primitive(t.name) {
        if t.generics.len() == 0 {
            Ok(())
        } else {
            Err(CompileError::BadTypeArity)
        }
    } else if t.name == "stream"@ {
        if t.generics.len() == 1 {
            check_type(t.generics[0])
        } else {
            Err(CompileError::BadTypeArity)
        }
    } else {
        Err(CompileError::UnknownType)
    }
}

/// The name of a function.
pub open spec fn item_name(item: ItemModel) -> Seq<char> {
    match item {
        ItemModel::Function { name, .. } => name,
    }
}

/// The parameters of a function, inputs first, then outputs.
pub open spec fn item_params(item: ItemModel) -> Seq<ParamModel> {
    match item {
        ItemModel::Function { parameters, return_params, .. } => parameters + return_params,
    }
}

/// Whether one of the first `n` parameters is called `name`.
pub open spec fn param_named(params: Seq<ParamModel>, n: int, name: Seq<char>) -> bool {
    exists|j: int| 0 <= j < n && j < params.len() && (#[trigger] params[j]).name == name
}

/// Whether one of the first `n` functions is called `name`.
pub open spec fn function_named(items: Seq<ItemModel>, n: int, name: Seq<char>) -> bool {
    exists|j: int| 0 <= j < n && j < items.len() && item_name(#[trigger] items[j]) == name
}

/// The first fault among the first `n` parameters, taken in order. Of each
/// parameter the type is looked at first, then whether an earlier
/// parameter has its name.
pub open spec fn check_params(params: Seq<ParamModel>, n: nat) -> Result<(), CompileError>
    decreases n,
{
    if n == 0 || n > params.len() {
        Ok(())
    } else {
        match check_params(params, (n - 1) as nat) {
            Err(e) => Err(e),
            Ok(_) => match check_type(params[n - 1].typ) {
                Err(e) => Err(e),
                Ok(_) => if param_named(params, n - 1, params[n - 1].name) {
                    Err(CompileError::DuplicateParameter)
                } else {
                    Ok(())
                },
            },
        }
    }
}

/// The first fault of a function: that of its parameters. Its body is not
/// looked at.
pub open spec fn check_function(item: ItemModel) -> Result<(), CompileError> {
    check_params(item_params(item), item_params(item).len())
}

/// The first fault among the first `n` functions, taken in order. Of each
/// function its name is looked at first, then its parameters.
pub open spec fn check_items(items: Seq<ItemModel>, n: nat) -> Result<(), CompileError>
    decreases n,
{
    if n == 0 || n > items.len() {
        Ok(())
    } else {
        match check_items(items, (n - 1) as nat) {
            Err(e) => Err(e),
            Ok(_) => if function_named(items, n - 1, item_name(items[n - 1])) {
                Err(CompileError::DuplicateFunction)
            } else {
                check_function(items[n - 1])
            },
        }
    }
}

/// The first fault of a file: that of its functions, or else a missing
/// `main`.
pub open spec fn check_file(items: Seq<ItemModel>) -> Result<(), CompileError> {
    match check_items(items, items.len()) {
        Err(e) => Err(e),
        Ok(_) => if function_named(items, items.len() as int, "main"@) {
            Ok(())
        } else {
            Err(CompileError::MissingMain)
        },
    }
}

/// No two of the parameters share a name.
pub open spec fn distinct_params(params: Seq<ParamModel>) -> bool {
    forall|i: int, j: int|
        0 <= i < j < params.len() ==> (#[trigger] params[i]).name != (#[trigger] params[j]).name
}

/// Every parameter has a type that exists.
pub open spec fn valid_params(params: Seq<ParamModel>) -> bool {
    forall|i: int| 0 <= i < params.len() ==> valid_type((#[trigger] params[i]).typ)
}

/// No two of the functions share a name.
pub open spec fn distinct_functions(items: Seq<ItemModel>) -> bool {
    forall|i: int, j: int|
        0 <= i < j < items.len() ==> item_name(#[trigger] items[i]) != item_name(
            #[trigger] items[j],
        )
}

/// What the checker asks of a file: function names are unique, there is a
/// `main`, and in every function the parameter names, inputs and outputs
/// together, are unique and the parameter types exist.
pub open spec fn well_formed_file(items: Seq<ItemModel>) -> bool {
    &&& distinct_functions(items)
    &&& function_named(items, items.len() as int, "main"@)
    &&& forall|i: int|
        0 <= i < items.len() ==> distinct_params(item_params(#[trigger] items[i]))
    &&& forall|i: int| 0 <= i < items.len() ==> valid_params(item_params(#[trigger] items[i]))
}

/// A type has no fault exactly if it exists.
pub proof fn lemma_check_type(t: TypeModel)
    ensures
        check_type(t) is Ok <==> valid_type(t),
    decreases t,
{
    if !is_primitive(t.name) && t.name == "stream"@ && t.generics.len() == 1 {
        lemma_check_type(t.generics[0]);
    }
}

/// The first `n` parameters have no fault exactly if their types exist and
/// their names differ.
pub proof fn lemma_check_params(params: Seq<ParamModel>, n: nat)
    requires
        n <= params.len(),
    ensures
        check_params(params, n) is Ok <==> valid_params(params.take(n as int)) && distinct_params(
            params.take(n as int),
        ),
    decreases n,
{
    let front = params.take(n as int);
    if n > 0 {
        let shorter = params.take(n - 1);
        lemma_check_params(params, (n - 1) as nat);
        lemma_check_type(params[n - 1].typ);
        assert(forall|i: int| 0 <= i < n - 1 ==> shorter[i] == front[i]);
        assert(front[n - 1] == params[n - 1]);
        if param_named(params, n - 1, params[n - 1].name) {
            let j = choose|j: int|
                0 <= j < n - 1 && j < params.len() && (#[trigger] params[j]).name == params[n
                    - 1].name;
            assert(front[j].name == front[n - 1].name);
        }
        if valid_params(front) && distinct_params(front) {
            assert forall|i: int| 0 <= i < shorter.len() implies valid_type(
                (#[trigger] shorter[i]).typ,
            ) by {
                assert(shorter[i] == front[i]);
            }
            assert forall|i: int, j: int| 0 <= i < j < shorter.len() implies (
            #[trigger] shorter[i]).name != (#[trigger] shorter[j]).name by {
                assert(shorter[i] == front[i]);
                assert(shorter[j] == front[j]);
            }
            assert(valid_type(front[n - 1].typ));
            if param_named(params, n - 1, params[n - 1].name) {
                assert(false);
            }
        }
        if check_params(params, n) is Ok {
            assert forall|i: int| 0 <= i < front.len() implies valid_type(
                (#[trigger] front[i]).typ,
            ) by {
                if i < n - 1 {
                    assert(front[i] == shorter[i]);
                }
            }
            assert forall|i: int, j: int| 0 <= i < j < front.len() implies (
            #[trigger] front[i]).name != (#[trigger] front[j]).name by {
                if j < n - 1 {
                    assert(front[i] == shorter[i]);
                    assert(front[j] == shorter[j]);
                } else {
                    assert(params[i].name != params[n - 1].name);
                }
            }
        }
    }
}

/// The first `n` functions have no fault exactly if their names differ and
/// the parameters of each have unique names and types that exist.
pub proof fn lemma_check_items(items: Seq<ItemModel>, n: nat)
    requires
        n <= items.len(),
    ensures
        check_items(items, n) is Ok <==> {
            &&& distinct_functions(items.take(n as int))
            &&& forall|i: int|
                0 <= i < n ==> distinct_params(item_params(#[trigger] items[i])) && valid_params(
                    item_params(items[i]),
                )
        },
    decreases n,
{
    let front = items.take(n as int);
    if n > 0 {
        let shorter = items.take(n - 1);
        let last = items[n - 1];
        lemma_check_items(items, (n - 1) as nat);
        lemma_check_params(item_params(last), item_params(last).len());
        assert(item_params(last).take(item_params(last).len() as int) =~= item_params(last));
        assert(front[n - 1] == last);
        if function_named(items, n - 1, item_name(last)) {
            let j = choose|j: int|
                0 <= j < n - 1 && j < items.len() && item_name(#[trigger] items[j]) == item_name(
                    last,
                );
            assert(item_name(front[j]) == item_name(front[n - 1]));
        }
        if distinct_functions(front) {
            assert forall|i: int, j: int| 0 <= i < j < shorter.len() implies item_name(
                #[trigger] shorter[i],
            ) != item_name(#[trigger] shorter[j]) by {
                assert(shorter[i] == front[i]);
                assert(shorter[j] == front[j]);
            }
        }
        if check_items(items, n) is Ok {
            assert forall|i: int, j: int| 0 <= i < j < front.len() implies item_name(
                #[trigger] front[i],
            ) != item_name(#[trigger] front[j]) by {
                if j < n - 1 {
                    assert(front[i] == shorter[i]);
                    assert(front[j] == shorter[j]);
                } else {
                    assert(item_name(items[i]) != item_name(last));
                }
            }
        }
    }
}

/// A file passes the check exactly if it is well formed: its function
/// names are unique, it has a `main`, and every function has parameters
/// with unique names and with types that exist.
pub proof fn lemma_check_file(items: Seq<ItemModel>)
    ensures
        check_file(items) is Ok <==> well_formed_file(items),
{
    lemma_check_items(items, items.len());
    assert(items.take(items.len() as int) =~= items);
}

/// A well-formed file has exactly one function named `main`.
pub proof fn lemma_one_main(items: Seq<ItemModel>, i: int, j: int)
    requires
        well_formed_file(items),
        0 <= i < items.len(),
        0 <= j < items.len(),
        item_name(items[i]) == "main"@,
        item_name(items[j]) == "main"@,
    ensures
        i == j,
{
}

/// Tells whether `name` is the name of a primitive type.
fn primitive_name(name: &str) -> (r: bool)
    ensures
        r == is_primitive(name@),
{
    same_text(name, "bool") || same_text(name, "u8") || same_text(name, "u16") || same_text(
        name,
        "u32",
    ) || same_text(name, "u64") || same_text(name, "i8") || same_text(name, "i16") || same_text(
        name,
        "i32",
    ) || same_text(name, "i64")
}

/// Tells whether one of the first `n` functions of `items` is called `name`.
fn function_in(items: &Vec<Item>, n: usize, name: &str) -> (r: bool)
    requires
        n <= items@.len(),
    ensures
        r == function_named(item_models(items@), n as int, name@),
{
    let ghost models = item_models(items@);
    let mut j: usize = 0;
    while j < n
        invariant
            j <= n <= items@.len(),
            models == item_models(items@),
            !function_named(models, j as int, name@),
        decreases n - j,
    {
        let other = match &items[j] {
            Item::Function { name, .. } => name,
        };
        assert(other@ == item_name(models[j as int]));
        if same_text(other.as_str(), name) {
            return true;
        }
        assert forall|k: int| 0 <= k < j + 1 && k < models.len() implies item_name(
            #[trigger] models[k],
        ) != name@ by {
            if k < j {
                assert(!function_named(models, j as int, name@));
            }
        }
        j = j + 1;
    }
    false
}

/// Tells whether one of the first `n` parameters of `params` is called
/// `name`.
fn param_in(params: &Vec<(String, Type)>, n: usize, name: &str) -> (r: bool)
    requires
        n <= params@.len(),
    ensures
        r == param_named(param_models(params@), n as int, name@),
{
    let ghost models = param_models(params@);
    let mut j: usize = 0;
    while j < n
        invariant
            j <= n <= params@.len(),
            models == param_models(params@),
            !param_named(models, j as int, name@),
        decreases n - j,
    {
        assert(params@[j as int].0@ == models[j as int].name);
        if same_text(params[j].0.as_str(), name) {
            return true;
        }
        assert forall|k: int| 0 <= k < j + 1 && k < models.len() implies (
        #[trigger] models[k]).name != name@ by {
            if k < j {
                assert(!param_named(models, j as int, name@));
            }
        }
        j = j + 1;
    }
    false
}

/// A name is among the first parameters of two lists, one behind the
/// other, if it is in the first list or among the first of the second.
proof fn lemma_param_named_split(
    inputs: Seq<ParamModel>,
    outputs: Seq<ParamModel>,
    n: int,
    name: Seq<char>,
)
    requires
        0 <= n <= outputs.len(),
    ensures
        param_named(inputs + outputs, inputs.len() + n, name) == (param_named(
            inputs,
            inputs.len() as int,
            name,
        ) || param_named(outputs, n, name)),
        n == 0 ==> forall|m: int|
            0 <= m <= inputs.len() ==> param_named(inputs + outputs, m, name) == param_named(
                inputs,
                m,
                name,
            ),
{
    let all = inputs + outputs;
    if param_named(all, inputs.len() + n, name) {
        let j = choose|j: int|
            0 <= j < inputs.len() + n && j < all.len() && (#[trigger] all[j]).name == name;
        if j < inputs.len() {
            assert(inputs[j].name == name);
        } else {
            assert(outputs[j - inputs.len()].name == name);
        }
    }
    if param_named(inputs, inputs.len() as int, name) {
        let j = choose|j: int|
            0 <= j < inputs.len() && j < inputs.len() && (#[trigger] inputs[j]).name == name;
        assert(all[j].name == name);
    }
    if param_named(outputs, n, name) {
        let j = choose|j: int| 0 <= j < n && j < outputs.len() && (#[trigger] outputs[j]).name == name;
        assert(all[inputs.len() + j].name == name);
    }
    if n == 0 {
        assert forall|m: int| 0 <= m <= inputs.len() implies param_named(all, m, name)
            == param_named(inputs, m, name) by {
            if param_named(all, m, name) {
                let j = choose|j: int|
                    0 <= j < m && j < all.len() && (#[trigger] all[j]).name == name;
                assert(inputs[j].name == name);
            }
            if param_named(inputs, m, name) {
                let j = choose|j: int|
                    0 <= j < m && j < inputs.len() && (#[trigger] inputs[j]).name == name;
                assert(all[j].name == name);
            }
        }
    }
}

/// The checker of one parsed file.
pub struct Checker<'a> {
    items: &'a Vec<Item>,
}

impl<'a> Checker<'a> {
    /// The file that this checker looks at.
    pub closed spec fn file(&self) -> Seq<ItemModel> {
        item_models(self.items@)
    }

    /// A checker for the file `items`.
    pub fn new(items: &'a Vec<Item>) -> (c: Self)
        ensures
            c.file() == item_models(items@),
    {
        Checker { items }
    }

    /// Checks the whole file and reports the first fault met, going
    /// through the functions in order and, in each, through its name, then
    /// its parameters; a missing `main` is reported last. The file passes
    /// exactly if it is well formed.
    pub fn check_all(&mut self) -> (r: Result<(), CompileError>)
        ensures
            r == check_file(old(self).file()),
            r is Ok <==> well_formed_file(old(self).file()),
            final(self).file() == old(self).file(),
    {
        let items = self.items;
        let ghost models = item_models(items@);
        proof {
            lemma_check_file(models);
        }
        let mut i: usize = 0;
        while i < items.len()
            invariant
                i <= items@.len(),
                items == self.items,
                *self == *old(self),
                models == item_models(items@),
                check_items(models, i as nat) is Ok,
            decreases items@.len() - i,
        {
            let name = match &items[i] {
                Item::Function { name, .. } => name,
            };
            assert(name@ == item_name(models[i as int]));
            if function_in(items, i, name.as_str()) {
                proof {
                    lemma_first_fault(models, (i + 1) as nat);
                    lemma_check_file(models);
                }
                return Err(CompileError::DuplicateFunction);
            }
            match self.check(&items[i]) {
                Ok(()) => {},
                Err(err) => {
                    proof {
                        lemma_first_fault(models, (i + 1) as nat);
                        lemma_check_file(models);
                    }
                    return Err(err);
                },
            }
            i = i + 1;
        }
        proof {
            lemma_check_file(models);
        }
        if function_in(items, items.len(), "main") {
            Ok(())
        } else {
            Err(CompileError::MissingMain)
        }
    }

    /// Checks one item.
    pub fn check(&self, item: &Item) -> (r: Result<(), CompileError>)
        ensures
            r == check_function(item@),
    {
        match item {
            Item::Function { name, parameters, body, return_params } => self.check_fn(
                parameters,
                return_params,
            ),
        }
    }

    /// Checks the parameters of a function, inputs first, then outputs,
    /// and reports the first fault met; of each parameter its type is
    /// looked at first, then its name. The body of the function is not
    /// checked.
    pub fn check_fn(
        &self,
        params: &Vec<(String, Type)>,
        return_params: &Vec<(String, Type)>,
    ) -> (r: Result<(), CompileError>)
        ensures
            r == check_params(
                param_models(params@) + param_models(return_params@),
                (params@.len() + return_params@.len()) as nat,
            ),
    {
        let ghost inputs = param_models(params@);
        let ghost outputs = param_models(return_params@);
        let ghost all = inputs + outputs;
        let mut i: usize = 0;
        while i < params.len()
            invariant
                i <= params@.len(),
                inputs == param_models(params@),
                outputs == param_models(return_params@),
                all == inputs + outputs,
                check_params(all, i as nat) is Ok,
            decreases params@.len() - i,
        {
            assert(param_model(params@[i as int]) == all[i as int]);
            proof {
                lemma_param_named_split(inputs, outputs, 0, all[i as int].name);
            }
            match self.check_type(&params[i].1) {
                Ok(()) => {},
                Err(err) => {
                    proof {
                        lemma_first_param_fault(all, (i + 1) as nat, all.len());
                    }
                    return Err(err);
                },
            }
            if param_in(params, i, params[i].0.as_str()) {
                proof {
                    lemma_first_param_fault(all, (i + 1) as nat, all.len());
                }
                return Err(CompileError::DuplicateParameter);
            }
            i = i + 1;
        }
        let mut k: usize = 0;
        while k < return_params.len()
            invariant
                i == params@.len(),
                k <= return_params@.len(),
                inputs == param_models(params@),
                outputs == param_models(return_params@),
                all == inputs + outputs,
                check_params(all, (i + k) as nat) is Ok,
            decreases return_params@.len() - k,
        {
            assert(param_model(return_params@[k as int]) == all[i + k]);
            proof {
                lemma_param_named_split(inputs, outputs, k as int, all[i + k].name);
            }
            match self.check_type(&return_params[k].1) {
                Ok(()) => {},
                Err(err) => {
                    proof {
                        lemma_first_param_fault(all, (i + k + 1) as nat, all.len());
                    }
                    return Err(err);
                },
            }
            let name = return_params[k].0.as_str();
            if param_in(params, i, name) || param_in(return_params, k, name) {
                proof {
                    lemma_first_param_fault(all, (i + k + 1) as nat, all.len());
                }
                return Err(CompileError::DuplicateParameter);
            }
            k = k + 1;
        }
        Ok(())
    }

    /// Checks that a type exists and reports its first fault, looking at
    /// the type itself before its argument.
    pub fn check_type(&self, typ: &Type) -> (r: Result<(), CompileError>)
        ensures
            r == check_type(typ@),
            r is Ok <==> valid_type(typ@),
        decreases typ,
    {
        proof {
            lemma_type_children(*typ);
            lemma_check_type(typ@);
        }
        if primitive_name(typ.name.as_str()) {
            self.check_basic_type(typ)
        } else if same_text(typ.name.as_str(), "stream") {
            if typ.generics.len() != 1 {
                Err(CompileError::BadTypeArity)
            } else {
                self.check_type(&typ.generics[0])
            }
        } else {
            Err(CompileError::UnknownType)
        }
    }

    /// Checks a type as a primitive: its name must be that of a
    /// primitive, and it must have no type arguments.
    pub fn check_basic_type(&self, typ: &Type) -> (r: Result<(), CompileError>)
        ensures
            r == if !is_primitive(typ@.name) {
                Err::<(), CompileError>(CompileError::UnknownType)
            } else if typ@.generics.len() != 0 {
                Err::<(), CompileError>(CompileError::BadTypeArity)
            } else {
                Ok::<(), CompileError>(())
            },
    {
        proof {
            lemma_type_children(*typ);
        }
        if !primitive_name(typ.name.as_str()) {
            Err(CompileError::UnknownType)
        } else if typ.generics.len() != 0 {
            Err(CompileError::BadTypeArity)
        } else {
            Ok(())
        }
    }
}

/// A fault among the first `n` parameters is the fault of any longer run.
pub proof fn lemma_first_param_fault(params: Seq<ParamModel>, n: nat, m: nat)
    requires
        n <= m <= params.len(),
        check_params(params, n) is Err,
    ensures
        check_params(params, m) == check_params(params, n),
    decreases m,
{
    if n < m {
        lemma_first_param_fault(params, n, (m - 1) as nat);
    }
}

/// A fault among the first `n` functions is the fault of the whole file.
pub proof fn lemma_first_fault(items: Seq<ItemModel>, n: nat)
    requires
        n <= items.len(),
        check_items(items, n) is Err,
    ensures
        check_file(items) == check_items(items, n),
{
    lemma_later_fault(items, n, items.len());
}

/// A fault among the first `n` functions is the fault of any longer run.
pub proof fn lemma_later_fault(items: Seq<ItemModel>, n: nat, m: nat)
    requires
        n <= m <= items.len(),
        check_items(items, n) is Err,
    ensures
        check_items(items, m) == check_items(items, n),
    decreases m,
{
    if n < m {
        lemma_later_fault(items, n, (m - 1) as nat);
    }
}

} // verus!
