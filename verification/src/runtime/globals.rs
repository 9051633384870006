//! The global variables of a module.

use vstd::prelude::*;
use vstd::string::StringExecFns;
use std::collections::HashMap;
use crate::runtime::errors::{ErrorKind, ExecResult, RuntimeError};
use crate::runtime::strings::{text_of, InternSymbol, StringTable};
use crate::runtime::variant::{Value, Variant};

verus! {

/// A global variable: its value, and whether it can be assigned to.
#[derive(Debug)]
pub struct Global {
    pub value: Variant,
    pub mutable: bool,
}

/// The global variables of a module, by the symbols of their names.
pub struct GlobalEnv {
    globals: HashMap<usize, Global>,
}

impl View for GlobalEnv {
    type V = Map<nat, (Value, bool)>;

    /// The variables by the positions of their names among the strings: the
    /// value of each, and whether it can be assigned to.
    closed spec fn view(&self) -> Map<nat, (Value, bool)> {
        Map::new(
            |name: nat| name <= usize::MAX && self.globals@.contains_key(name as usize),
            |name: nat| (self.globals@[name as usize].value@, self.globals@[name as usize].mutable),
        )
    }
}

impl GlobalEnv {
    /// Whether a variable with the name `name` is declared.
    pub open spec fn declares(&self, name: InternSymbol) -> bool {
        self@.contains_key(name.index())
    }

    /// The value of the variable `name`.
    pub open spec fn value_of(&self, name: InternSymbol) -> Value {
        self@[name.index()].0
    }

    /// Whether the variable `name` can be assigned to.
    pub open spec fn is_mutable(&self, name: InternSymbol) -> bool {
        self@[name.index()].1
    }

    /// Whether `other` has the variables of this environment but for `name`:
    /// it declares the same names, with the same values and the same rights.
    pub open spec fn same_but(&self, other: &GlobalEnv, name: InternSymbol) -> bool {
        forall|any: InternSymbol|
            any.index() != name.index() ==> (#[trigger] self.declares(any)) == other.declares(any)
                && (self.declares(any) ==> self.value_of(any) == other.value_of(any)
                && self.is_mutable(any) == other.is_mutable(any))
    }

    pub fn new() -> (env: GlobalEnv)
        ensures
            env@ == Map::<nat, (Value, bool)>::empty(),
    {
        broadcast use vstd::std_specs::hash::group_hash_axioms;

        let env = GlobalEnv { globals: HashMap::new() };
        assert(env@ =~= Map::<nat, (Value, bool)>::empty());
        env
    }

    /// Declares the variable `name` with the value `value`. A variable of
    /// that name that was declared before is replaced.
    pub fn insert(&mut self, name: InternSymbol, value: Variant, mutable: bool)
        ensures
            final(self)@ == old(self)@.insert(name.index(), (value@, mutable)),
    {
        broadcast use vstd::std_specs::hash::group_hash_axioms;

        self.globals.insert(name.to_usize(), Global { value, mutable });
        proof {
            name.lemma_index_bound();
            assert(self@ =~= old(self)@.insert(name.index(), (value@, mutable)));
        }
        proof {
            assert forall|any: InternSymbol| any.index() != name.index() implies (
            #[trigger] self.declares(any)) == old(self).declares(any) && (self.declares(any)
                ==> self.value_of(any) == old(self).value_of(any) && self.is_mutable(any) == old(self).is_mutable(any)) by {
                any.lemma_index_bound();
                name.lemma_index_bound();
                assert(any.index() as usize != name.index() as usize);
            }
        }
    }

    /// The value of the variable `name`. A name that is not declared is an
    /// error that tells the name.
    pub fn load(&self, name: InternSymbol, table: &StringTable) -> (result: ExecResult<Variant>)
        requires
            name.index() < table@.len(),
        ensures
            match result {
                Ok(value) => self.declares(name) && value@ == self.value_of(name),
                Err(error) => !self.declares(name) && is_not_defined(error, text_of(table@, name)),
            },
    {
        broadcast use vstd::std_specs::hash::group_hash_axioms;

        let key = name.to_usize();
        proof {
            name.lemma_index_bound();
        }
        match self.globals.get(&key) {
            Some(global) => Ok(global.value.duplicate()),
            None => Err(not_defined(name, table)),
        }
    }

    /// Assigns `value` to the variable `name`. A name that is not declared,
    /// or a variable that cannot be assigned to, is an error, and nothing
    /// changes.
    pub fn store(&mut self, name: InternSymbol, value: Variant, table: &StringTable) -> (result:
        ExecResult<()>)
        requires
            name.index() < table@.len(),
        ensures
            final(self)@ == if old(self).declares(name) && old(self).is_mutable(name) {
                old(self)@.insert(name.index(), (value@, true))
            } else {
                old(self)@
            },
            match result {
                Ok(()) => old(self).declares(name) && old(self).is_mutable(name) && final(self).value_of(name) == value@ && final(self).is_mutable(name),
                Err(error) => if old(self).declares(name) {
                    &&& !old(self).is_mutable(name)
                    &&& error.spec_kind() is CantAssignImmutable
                    &&& error.trace().len() == 0
                    &&& error.spec_cause().is_none()
                    &&& final(self).value_of(name) == old(self).value_of(name)
                    &&& !final(self).is_mutable(name)
                } else {
                    is_not_defined(error, text_of(table@, name))
                },
            },
    {
        broadcast use vstd::std_specs::hash::group_hash_axioms;

        let key = name.to_usize();
        proof {
            name.lemma_index_bound();
        }
        let mutable = match self.globals.get(&key) {
            Some(global) => global.mutable,
            None => {
                return Err(not_defined(name, table));
            },
        };
        if !mutable {
            return Err(RuntimeError::boxed(ErrorKind::CantAssignImmutable));
        }
        self.globals.insert(key, Global { value, mutable: true });
        proof {
            name.lemma_index_bound();
            assert(self@ =~= old(self)@.insert(name.index(), (value@, true)));
        }
        proof {
            assert forall|any: InternSymbol| any.index() != name.index() implies (
            #[trigger] self.declares(any)) == old(self).declares(any) && (self.declares(any)
                ==> self.value_of(any) == old(self).value_of(any) && self.is_mutable(any) == old(self).is_mutable(any)) by {
                any.lemma_index_bound();
                name.lemma_index_bound();
                assert(any.index() as usize != name.index() as usize);
            }
        }
        Ok(())
    }
}

/// Whether `error` tells that the name `name` is not defined.
pub open spec fn is_not_defined(error: Box<RuntimeError>, name: Seq<char>) -> bool {
    &&& error.spec_kind() matches ErrorKind::NameNotDefined(told)
    &&& told@ == name
    &&& error.trace().len() == 0
    &&& error.spec_cause().is_none()
}

/// The error for a name that is not defined.
fn not_defined(name: InternSymbol, table: &StringTable) -> (error: Box<RuntimeError>)
    requires
        name.index() < table@.len(),
    ensures
        is_not_defined(error, text_of(table@, name)),
{
    RuntimeError::boxed(ErrorKind::NameNotDefined(String::from_str(table.resolve(&name))))
}

} // verus!
