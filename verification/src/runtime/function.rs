//! Functions of the language: compiled ones with the variables they caught,
//! and native ones that the host runs.

use vstd::prelude::*;
use crate::codegen::chunk::FunctionID;
use crate::runtime::errors::{ErrorKind, ExecResult};
use crate::runtime::function::signature::Signature;
use crate::runtime::gc::{CellRef, GC};
use crate::runtime::module::{FunctionProto, Module};
use crate::runtime::variant::Variant;

pub mod signature;

verus! {

/// What to call: a chunk of a module, or a native function.
#[derive(Debug)]
pub enum Call {
    Chunk(GC<Module>, FunctionID),
    Native(GC<NativeFunction>),
}

/// The cells that the upvalues `upvalues` live in: those of the closed ones,
/// in their order.
pub open spec fn closed_cells(upvalues: Seq<Upvalue>) -> Seq<CellRef>
    decreases upvalues.len(),
{
    if upvalues.len() == 0 {
        Seq::empty()
    } else {
        match upvalues.last().spec_closure() {
            Closure::Closed(cell) => closed_cells(upvalues.drop_last()).push(cell),
            Closure::Open(_) => closed_cells(upvalues.drop_last()),
        }
    }
}

/// A compiled function: its place in its module, and the variables that it
/// caught from the functions around it.
#[derive(Debug)]
pub struct Function {
    fun_id: FunctionID,
    module: GC<Module>,
    upvalues: Vec<Upvalue>,
}

impl Function {
    #[verifier::type_invariant]
    spec fn type_inv(&self) -> bool {
        self.fun_id < self.module.spec_data()@.len()
    }

    pub closed spec fn spec_fun_id(&self) -> FunctionID {
        self.fun_id
    }

    pub closed spec fn spec_module(&self) -> GC<Module> {
        self.module
    }

    pub closed spec fn spec_upvalues(&self) -> Seq<Upvalue> {
        self.upvalues@
    }

    /// What the function is compiled to.
    pub open spec fn spec_proto(&self) -> FunctionProto {
        self.spec_module().spec_data()@[self.spec_fun_id() as int]
    }

    /// The function `fun_id` of `module`.
    pub fn new(fun_id: FunctionID, module: GC<Module>, upvalues: Vec<Upvalue>) -> (function:
        Function)
        requires
            fun_id < module.spec_data()@.len(),
        ensures
            function.spec_fun_id() == fun_id,
            function.spec_module() == module,
            function.spec_upvalues() == upvalues@,
    {
        Function { fun_id, module, upvalues }
    }

    /// The cells that the function keeps alive: those of its closed
    /// upvalues, in the order of the upvalues.
    pub fn trace(&self) -> (cells: Vec<CellRef>)
        ensures
            cells@ == closed_cells(self.spec_upvalues()),
    {
        let mut cells: Vec<CellRef> = Vec::new();
        let mut i: usize = 0;
        while i < self.upvalues.len()
            invariant
                i <= self.upvalues@.len(),
                cells@ == closed_cells(self.upvalues@.take(i as int)),
            decreases self.upvalues@.len() - i,
        {
            assert(self.upvalues@.take(i + 1).drop_last() =~= self.upvalues@.take(i as int));
            if let Closure::Closed(cell) = self.upvalues[i].closure() {
                cells.push(cell);
            }
            i += 1;
        }
        assert(self.upvalues@.take(i as int) =~= self.upvalues@);
        cells
    }

    pub fn upvalues(&self) -> (upvalues: &[Upvalue])
        ensures
            upvalues@ == self.spec_upvalues(),
    {
        self.upvalues.as_slice()
    }

    pub fn proto(&self) -> (proto: &FunctionProto)
        ensures
            *proto == self.spec_proto(),
    {
        proof {
            use_type_invariant(self);
        }
        self.module.data().get_function(self.fun_id)
    }

    pub fn signature(&self) -> (signature: &Signature)
        ensures
            signature == self.spec_proto().spec_signature(),
    {
        self.proto().signature()
    }

    /// Checks the number of `args` against the signature, and tells what to
    /// call: the chunk of this function.
    pub fn checked_call(&self, args: &[Variant]) -> (result: ExecResult<Call>)
        ensures
            arity_checked(self.spec_proto().spec_signature(), args@.len(), result),
            result matches Ok(call) ==> call == Call::Chunk(self.spec_module(), self.spec_fun_id()),
    {
        match self.signature().check_args(args) {
            Ok(()) => Ok(Call::Chunk(self.module.share(), self.fun_id)),
            Err(error) => Err(error),
        }
    }
}

/// Whether `result` is what a call with `nargs` arguments comes to by the
/// number of its arguments alone: an error that tells too few with a copy of
/// the signature, else one that tells too many, else no error.
pub open spec fn arity_checked<T>(signature: &Signature, nargs: nat, result: ExecResult<T>) -> bool {
    if signature@.misses(nargs) {
        &&& result is Err
        &&& result->Err_0.spec_kind() matches ErrorKind::MissingArguments { signature: held, nargs: told }
        &&& held@ == signature@
        &&& told == nargs
    } else if signature@.exceeds(nargs) {
        &&& result is Err
        &&& result->Err_0.spec_kind() matches ErrorKind::TooManyArguments { signature: held, nargs: told }
        &&& held@ == signature@
        &&& told == nargs
    } else {
        result is Ok
    }
}

/// Where a caught variable lives: still in its slot of the stack, or in a
/// cell of its own.
#[derive(Debug, Clone, Copy, PartialEq, Eq, Structural)]
pub enum Closure {
    Open(usize),
    Closed(CellRef),
}

impl Closure {
    pub fn is_open(&self) -> (open: bool)
        ensures
            open == (self is Open),
    {
        matches!(self, Closure::Open(..))
    }

    pub fn is_closed(&self) -> (closed: bool)
        ensures
            closed == (self is Closed),
    {
        matches!(self, Closure::Closed(..))
    }
}

/// A variable that a function caught from a function around it.
#[derive(Debug, Clone, Copy, PartialEq, Eq, Structural)]
pub struct Upvalue {
    value: Closure,
}

impl Upvalue {
    pub closed spec fn spec_closure(&self) -> Closure {
        self.value
    }

    /// An upvalue for the variable in slot `index` of the stack.
    pub fn new(index: usize) -> (upvalue: Upvalue)
        ensures
            upvalue.spec_closure() == Closure::Open(index),
    {
        Upvalue { value: Closure::Open(index) }
    }

    #[verifier::when_used_as_spec(spec_closure)]
    pub fn closure(&self) -> (closure: Closure)
        ensures
            closure == self.spec_closure(),
    {
        self.value
    }

    /// Lets the variable live in `cell` from now on.
    pub fn close(&mut self, cell: CellRef)
        ensures
            final(self).spec_closure() == Closure::Closed(cell),
    {
        self.value = Closure::Closed(cell);
    }
}

/// A function of the host, by its number in the host's table of functions.
#[derive(Debug, Clone, Copy, PartialEq, Eq, Structural)]
pub struct NativeFn {
    pub id: usize,
}

/// A native function: its signature, the values of its default parameters,
/// and the function of the host that does its work.
#[derive(Debug)]
pub struct NativeFunction {
    signature: Signature,
    defaults: Option<Vec<Variant>>,
    func: NativeFn,
}

impl NativeFunction {
    pub closed spec fn spec_signature(&self) -> &Signature {
        &self.signature
    }

    pub closed spec fn spec_defaults(&self) -> Option<Vec<Variant>> {
        self.defaults
    }

    pub closed spec fn spec_func(&self) -> NativeFn {
        self.func
    }

    pub fn new(signature: Signature, defaults: Option<Vec<Variant>>, func: NativeFn) -> (function:
        NativeFunction)
        ensures
            *function.spec_signature() == signature,
            function.spec_defaults() == defaults,
            function.spec_func() == func,
    {
        NativeFunction { signature, defaults, func }
    }

    #[verifier::when_used_as_spec(spec_signature)]
    pub fn signature(&self) -> (signature: &Signature)
        ensures
            signature == self.spec_signature(),
    {
        &self.signature
    }

    /// The values of the default parameters: none if none were given.
    pub fn defaults(&self) -> (defaults: &[Variant])
        ensures
            defaults@ == match self.spec_defaults() {
                Some(values) => values@,
                None => Seq::<Variant>::empty(),
            },
    {
        match self.defaults.as_ref() {
            Some(defaults) => defaults.as_slice(),
            None => {
                let none: &[Variant] = &[];
                assert(none@ =~= Seq::<Variant>::empty());
                none
            },
        }
    }

    /// Checks the number of `args` against the signature, and then lets
    /// `host` run the function of the host on them.
    pub fn invoke<H>(&self, args: &[Variant], host: H) -> (result: ExecResult<Variant>) where
        H: FnOnce(NativeFn, &[Variant]) -> ExecResult<Variant>,
        requires
            host.requires((self.spec_func(), args)),
        ensures
            self.spec_signature()@.misses(args@.len()) || self.spec_signature()@.exceeds(
                args@.len(),
            ) ==> arity_checked(self.spec_signature(), args@.len(), result),
            !self.spec_signature()@.misses(args@.len()) && !self.spec_signature()@.exceeds(
                args@.len(),
            ) ==> host.ensures((self.spec_func(), args), result),
    {
        match self.signature.check_args(args) {
            Ok(()) => host(self.func, args),
            Err(error) => Err(error),
        }
    }
}

impl GC<NativeFunction> {
    /// Checks the number of `args` against the signature, and tells what to
    /// call: this native function.
    pub fn checked_call(&self, args: &[Variant]) -> (result: ExecResult<Call>)
        ensures
            arity_checked(self.spec_data().spec_signature(), args@.len(), result),
            result matches Ok(call) ==> call == Call::Native(*self),
    {
        match self.data().signature().check_args(args) {
            Ok(()) => Ok(Call::Native(self.share())),
            Err(error) => Err(error),
        }
    }
}

} // verus!
