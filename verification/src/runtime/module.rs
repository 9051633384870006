//! Modules: what a function needs of the program that it belongs to.

use vstd::prelude::*;
use crate::codegen::chunk::{ChunkID, FunctionID};
use crate::runtime::function::signature::Signature;

verus! {

/// What a function is compiled to: its signature, and the chunk that holds
/// its code.
#[derive(Debug)]
pub struct FunctionProto {
    signature: Signature,
    chunk_id: ChunkID,
    fun_id: FunctionID,
}

impl FunctionProto {
    pub closed spec fn spec_signature(&self) -> &Signature {
        &self.signature
    }

    pub closed spec fn spec_chunk_id(&self) -> ChunkID {
        self.chunk_id
    }

    pub closed spec fn spec_fun_id(&self) -> FunctionID {
        self.fun_id
    }

    pub fn new(signature: Signature, chunk_id: ChunkID, fun_id: FunctionID) -> (proto:
        FunctionProto)
        ensures
            *proto.spec_signature() == signature,
            proto.spec_chunk_id() == chunk_id,
            proto.spec_fun_id() == fun_id,
    {
        FunctionProto { signature, chunk_id, fun_id }
    }

    #[verifier::when_used_as_spec(spec_signature)]
    pub fn signature(&self) -> (signature: &Signature)
        ensures
            signature == self.spec_signature(),
    {
        &self.signature
    }

    #[verifier::when_used_as_spec(spec_chunk_id)]
    pub fn chunk_id(&self) -> (chunk_id: ChunkID)
        ensures
            chunk_id == self.spec_chunk_id(),
    {
        self.chunk_id
    }

    #[verifier::when_used_as_spec(spec_fun_id)]
    pub fn fun_id(&self) -> (fun_id: FunctionID)
        ensures
            fun_id == self.spec_fun_id(),
    {
        self.fun_id
    }
}

/// The functions of a loaded program, each at the position that is its id.
#[derive(Debug)]
pub struct Module {
    functions: Vec<FunctionProto>,
}

impl View for Module {
    type V = Seq<FunctionProto>;

    closed spec fn view(&self) -> Seq<FunctionProto> {
        self.functions@
    }
}

impl Module {
    pub fn new(functions: Vec<FunctionProto>) -> (module: Module)
        ensures
            module@ == functions@,
    {
        Module { functions }
    }

    pub fn get_function(&self, fun_id: FunctionID) -> (proto: &FunctionProto)
        requires
            fun_id < self@.len(),
        ensures
            *proto == self@[fun_id as int],
    {
        &self.functions[fun_id as usize]
    }
}

} // verus!
