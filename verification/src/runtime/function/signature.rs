//! The signature of a function: its name and its parameters.

use vstd::prelude::*;
use vstd::string::StringExecFns;
use crate::runtime::errors::{ErrorKind, ExecResult, RuntimeError};
use crate::runtime::strings::StringTable;
use crate::runtime::variant::{StringSymbol, Variant};

verus! {

/// One parameter of a function.
#[derive(Debug, Clone, Copy, PartialEq, Eq, Structural)]
pub struct Parameter {
    name: StringSymbol,
    mutable: bool,
}

impl Parameter {
    pub closed spec fn spec_name(&self) -> StringSymbol {
        self.name
    }

    pub closed spec fn spec_is_mutable(&self) -> bool {
        self.mutable
    }

    pub fn new(name: StringSymbol, mutable: bool) -> (param: Parameter)
        ensures
            param.spec_name() == name,
            param.spec_is_mutable() == mutable,
    {
        Parameter { name, mutable }
    }

    #[verifier::when_used_as_spec(spec_name)]
    pub fn name(&self) -> (name: StringSymbol)
        ensures
            name == self.spec_name(),
    {
        self.name
    }

    #[verifier::when_used_as_spec(spec_is_mutable)]
    pub fn is_mutable(&self) -> (mutable: bool)
        ensures
            mutable == self.spec_is_mutable(),
    {
        self.mutable
    }
}

/// What a signature is.
pub ghost struct SignatureView {
    pub name: Option<StringSymbol>,
    /// The parameters that every call gives.
    pub required: Seq<Parameter>,
    /// The parameters that have a default value.
    pub default: Seq<Parameter>,
    /// The parameter that takes the arguments that are left, if there is one.
    pub variadic: Option<Parameter>,
}

impl SignatureView {
    /// The least number of arguments of a call.
    pub open spec fn min_arity(self) -> nat {
        self.required.len()
    }

    /// The greatest number of arguments of a call, unless a variadic
    /// parameter takes any number.
    pub open spec fn max_arity(self) -> Option<nat> {
        if self.variadic.is_some() {
            None
        } else {
            Some(self.required.len() + self.default.len())
        }
    }

    /// Whether the name of the function and the names of its parameters are
    /// strings of `table`.
    pub open spec fn names_known(self, table: Seq<Seq<char>>) -> bool {
        &&& self.name matches Some(name) ==> name.index() < table.len()
        &&& forall|i: int|
            0 <= i < self.required.len() ==> (#[trigger] self.required[i]).spec_name().index()
                < table.len()
        &&& forall|i: int|
            0 <= i < self.default.len() ==> (#[trigger] self.default[i]).spec_name().index()
                < table.len()
        &&& self.variadic matches Some(param) ==> param.spec_name().index() < table.len()
    }

    /// The function in short: its name with `()` behind it, or a word for a
    /// function without a name.
    pub open spec fn short_text(self, table: Seq<Seq<char>>) -> Seq<char> {
        match self.name {
            Some(name) => table[name.index() as int] + "()"@,
            None => "<anonymous fun>"@,
        }
    }

    /// Whether a call with `nargs` arguments gives too few.
    pub open spec fn misses(self, nargs: nat) -> bool {
        nargs < self.min_arity()
    }

    /// Whether a call with `nargs` arguments gives too many.
    pub open spec fn exceeds(self, nargs: nat) -> bool {
        self.max_arity() matches Some(max) && nargs > max
    }
}

/// The name and the parameters of a function.
#[derive(Debug)]
pub struct Signature {
    name: Option<StringSymbol>,
    required: Vec<Parameter>,
    default: Vec<Parameter>,
    variadic: Option<Parameter>,
}

impl View for Signature {
    type V = SignatureView;

    closed spec fn view(&self) -> SignatureView {
        SignatureView {
            name: self.name,
            required: self.required@,
            default: self.default@,
            variadic: self.variadic,
        }
    }
}

impl Clone for Signature {
    fn clone(&self) -> (copy: Signature)
        ensures
            copy@ == self@,
    {
        proof {
            use_type_invariant(self);
        }
        let copy = Signature {
            name: self.name,
            required: copy_params(&self.required),
            default: copy_params(&self.default),
            variadic: self.variadic,
        };
        copy
    }
}

/// A copy of `params`.
fn copy_params(params: &Vec<Parameter>) -> (copy: Vec<Parameter>)
    ensures
        copy@ == params@,
{
    let mut copy: Vec<Parameter> = Vec::new();
    let mut i: usize = 0;
    while i < params.len()
        invariant
            i <= params@.len(),
            copy@ == params@.take(i as int),
        decreases params@.len() - i,
    {
        copy.push(params[i]);
        assert(copy@ =~= params@.take(i + 1));
        i += 1;
    }
    assert(copy@ =~= params@);
    copy
}

impl Signature {
    #[verifier::type_invariant]
    spec fn type_inv(&self) -> bool {
        self.required@.len() + self.default@.len() <= usize::MAX
    }

    pub fn new(
        name: Option<StringSymbol>,
        required: Vec<Parameter>,
        default: Vec<Parameter>,
        variadic: Option<Parameter>,
    ) -> (signature: Signature)
        requires
            required@.len() + default@.len() <= usize::MAX,
        ensures
            signature@ == (SignatureView {
                name,
                required: required@,
                default: default@,
                variadic,
            }),
    {
        Signature { name, required, default, variadic }
    }

    pub fn name(&self) -> (name: Option<StringSymbol>)
        ensures
            name == self@.name,
    {
        self.name
    }

    pub fn required(&self) -> (params: &Vec<Parameter>)
        ensures
            params@ == self@.required,
    {
        &self.required
    }

    pub fn default(&self) -> (params: &Vec<Parameter>)
        ensures
            params@ == self@.default,
    {
        &self.default
    }

    pub fn variadic(&self) -> (param: Option<Parameter>)
        ensures
            param == self@.variadic,
    {
        self.variadic
    }

    pub fn min_arity(&self) -> (arity: usize)
        ensures
            arity == self@.min_arity(),
    {
        self.required.len()
    }

    pub fn max_arity(&self) -> (arity: Option<usize>)
        ensures
            arity.is_some() == self@.max_arity().is_some(),
            arity.is_some() ==> arity.unwrap() == self@.max_arity().unwrap(),
    {
        proof {
            use_type_invariant(self);
        }
        if self.variadic.is_some() {
            None
        } else {
            Some(self.required.len() + self.default.len())
        }
    }

    /// The function in short, for messages.
    pub fn display_short(&self, table: &StringTable) -> (text: String)
        requires
            self@.names_known(table@),
        ensures
            text@ == self@.short_text(table@),
    {
        match self.name {
            Some(name) => {
                let mut text = String::from_str(table.resolve(&name));
                text.append("()");
                text
            },
            None => String::from_str("<anonymous fun>"),
        }
    }

    /// Checks the number of the arguments of a call: too few are told first,
    /// then too many. The error holds a copy of the signature.
    pub fn check_args(&self, args: &[Variant]) -> (result: ExecResult<()>)
        ensures
            result is Ok <==> !self@.misses(args@.len()) && !self@.exceeds(args@.len()),
            self@.misses(args@.len()) ==> result is Err && (result->Err_0.spec_kind() matches ErrorKind::MissingArguments {
                signature,
                nargs,
            } && signature@ == self@ && nargs == args@.len()),
            !self@.misses(args@.len()) && self@.exceeds(args@.len()) ==> result is Err && (
            result->Err_0.spec_kind() matches ErrorKind::TooManyArguments { signature, nargs }
                && signature@ == self@ && nargs == args@.len()),
            result is Err ==> result->Err_0.trace() == Seq::<crate::debug::traceback::TraceSite>::empty()
                && result->Err_0.spec_cause().is_none(),
    {
        let nargs = args.len();
        if nargs < self.min_arity() {
            return Err(
                RuntimeError::boxed(
                    ErrorKind::MissingArguments { signature: Box::new(self.clone()), nargs },
                ),
            );
        }
        match self.max_arity() {
            Some(max) => {
                if nargs > max {
                    return Err(
                        RuntimeError::boxed(
                            ErrorKind::TooManyArguments { signature: Box::new(self.clone()), nargs },
                        ),
                    );
                }
            },
            None => {},
        }
        Ok(())
    }
}

} // verus!
