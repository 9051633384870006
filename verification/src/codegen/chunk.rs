//! Chunks of bytecode, the constants they refer to, and the programs that
//! hold both.

use vstd::pervasive::unreached;
use vstd::prelude::*;
use vstd::slice::slice_subrange;
use vstd::std_specs::convert::{FromSpecImpl, IntoSpec};
use vstd::string::StringSliceAdditionalSpecFns;
use vstd::utf8::{decode_utf8, encode_utf8, encode_utf8_decode_utf8, encode_utf8_valid_utf8, valid_utf8};
use std::collections::HashMap;
use crate::codegen::errors::{CompileError, CompileResult, ErrorKind};
use crate::debug::symbol::DebugSymbol;
use crate::language::{FloatBytes, IntType};
use crate::runtime::function::signature::{Signature, SignatureView};
use crate::runtime::strings::{InternSymbol, Interner, StringTable, SYMBOL_LIMIT};
use crate::runtime::variant::{StringSymbol, Value, Variant};

verus! {

pub type ConstID = u16;

pub type ChunkID = u16;

pub type FunctionID = u16;

/// A constant of a program.
#[derive(Debug, Clone, Copy, PartialEq, Eq, Hash)]
pub enum Constant {
    Integer(IntType),
    /// A float, as its little-endian bytes.
    Float(FloatBytes),
    /// A string, as its position among the strings of the program.
    String(usize),
    Function(ChunkID, FunctionID),
}

impl From<IntType> for Constant {
    fn from(value: IntType) -> (constant: Constant) {
        Constant::Integer(value)
    }
}

impl FromSpecImpl<IntType> for Constant {
    open spec fn obeys_from_spec() -> bool {
        true
    }

    open spec fn from_spec(value: IntType) -> Constant {
        Constant::Integer(value)
    }
}

impl From<usize> for Constant {
    fn from(index: usize) -> (constant: Constant) {
        Constant::String(index)
    }
}

impl FromSpecImpl<usize> for Constant {
    open spec fn obeys_from_spec() -> bool {
        true
    }

    open spec fn from_spec(index: usize) -> Constant {
        Constant::String(index)
    }
}

impl From<InternSymbol> for Constant {
    fn from(symbol: InternSymbol) -> (constant: Constant) {
        Constant::String(symbol.to_usize())
    }
}

impl FromSpecImpl<InternSymbol> for Constant {
    open spec fn obeys_from_spec() -> bool {
        true
    }

    open spec fn from_spec(symbol: InternSymbol) -> Constant {
        Constant::String(symbol.index() as usize)
    }
}

/// `count` zero bytes.
pub open spec fn zeros(count: nat) -> Seq<u8> {
    Seq::new(count, |i: int| 0u8)
}

/// `bytes` with the `from_len` bytes at `offset` replaced by `patch`.
pub open spec fn patched(bytes: Seq<u8>, offset: int, from_len: int, patch: Seq<u8>) -> Seq<u8> {
    bytes.take(offset) + patch + bytes.skip(offset + from_len)
}

/// The bytecode of one chunk while it is being emitted.
#[derive(Debug)]
pub struct ChunkBuf {
    bytes: Vec<u8>,
    symbol: Option<DebugSymbol>,
}

impl View for ChunkBuf {
    type V = Seq<u8>;

    closed spec fn view(&self) -> Seq<u8> {
        self.bytes@
    }
}

impl Default for ChunkBuf {
    fn default() -> (buf: ChunkBuf)
        ensures
            buf@ == Seq::<u8>::empty(),
            buf.symbol().is_none(),
    {
        ChunkBuf::new()
    }
}

impl ChunkBuf {
    /// The source text that the chunk came from, where that is known.
    pub closed spec fn symbol(&self) -> Option<DebugSymbol> {
        self.symbol
    }

    pub fn new() -> (buf: ChunkBuf)
        ensures
            buf@ == Seq::<u8>::empty(),
            buf.symbol().is_none(),
    {
        ChunkBuf { bytes: Vec::new(), symbol: None }
    }

    pub fn len(&self) -> (len: usize)
        ensures
            len == self@.len(),
    {
        self.bytes.len()
    }

    pub fn as_slice(&self) -> (bytes: &[u8])
        ensures
            bytes@ == self@,
    {
        self.bytes.as_slice()
    }

    pub fn as_mut_slice(&mut self) -> (bytes: &mut [u8])
        ensures
            bytes@ == old(self)@,
            final(self)@ == final(bytes)@,
            final(self).symbol() == old(self).symbol(),
    {
        self.bytes.as_mut_slice()
    }

    /// Adds one byte at the end: an opcode, or anything else that turns into
    /// a byte.
    pub fn push_byte<B: Into<u8>>(&mut self, byte: B)
        ensures
            B::obeys_into_spec() ==> final(self)@ == old(self)@.push(byte.into_spec()),
            final(self)@.len() == old(self)@.len() + 1,
            final(self)@.take(old(self)@.len() as int) == old(self)@,
            final(self).symbol() == old(self).symbol(),
    {
        self.bytes.push(byte.into());
        assert(self@.take(old(self)@.len() as int) =~= old(self)@);
    }

    pub fn extend_bytes(&mut self, bytes: &[u8])
        ensures
            final(self)@ == old(self)@ + bytes@,
            final(self).symbol() == old(self).symbol(),
    {
        self.bytes.extend_from_slice(bytes);
    }

    /// Overwrites the bytes at `offset` with `patch`.
    pub fn patch_bytes(&mut self, offset: usize, patch: &[u8])
        requires
            offset + patch@.len() <= old(self)@.len(),
        ensures
            final(self)@ == patched(old(self)@, offset as int, patch@.len() as int, patch@),
            final(self)@.len() == old(self)@.len(),
            final(self).symbol() == old(self).symbol(),
    {
        let len = self.bytes.len();
        let mut i: usize = 0;
        while i < patch.len()
            invariant
                i <= patch@.len(),
                offset + patch@.len() <= old(self)@.len(),
                self@.len() == old(self)@.len(),
                self@.len() == len,
                self.symbol() == old(self).symbol(),
                forall|j: int| 0 <= j < offset ==> self@[j] == old(self)@[j],
                forall|j: int| offset <= j < offset + i ==> self@[j] == patch@[j - offset],
                forall|j: int| offset + i <= j < self@.len() ==> self@[j] == old(self)@[j],
            decreases patch@.len() - i,
        {
            self.bytes.set(offset + i, patch[i]);
            i += 1;
        }
        assert(self@ =~= patched(old(self)@, offset as int, patch@.len() as int, patch@));
    }

    /// Replaces the `from_len` bytes at `offset` by `to_len` zero bytes:
    /// what follows them moves. Anything previously inside the patch is
    /// overwritten.
    pub fn resize_patch(&mut self, offset: usize, from_len: usize, to_len: usize)
        requires
            offset + from_len <= old(self)@.len(),
        ensures
            final(self)@ == patched(old(self)@, offset as int, from_len as int, zeros(to_len as nat)),
            final(self).symbol() == old(self).symbol(),
    {
        let len = self.bytes.len();
        let mut tail: Vec<u8> = Vec::new();
        let mut i: usize = offset + from_len;
        while i < self.bytes.len()
            invariant
                offset + from_len <= i <= self@.len(),
                self@ == old(self)@,
                tail@ == old(self)@.subrange(offset + from_len, i as int),
            decreases self@.len() - i,
        {
            tail.push(self.bytes[i]);
            i += 1;
        }
        self.bytes.truncate(offset);
        let mut n: usize = 0;
        while n < to_len
            invariant
                n <= to_len,
                self.symbol() == old(self).symbol(),
                self@ == old(self)@.take(offset as int) + zeros(n as nat),
            decreases to_len - n,
        {
            self.bytes.push(0u8);
            n += 1;
            assert(self@ =~= old(self)@.take(offset as int) + zeros(n as nat));
        }
        self.bytes.append(&mut tail);
        assert(self@ =~= patched(old(self)@, offset as int, from_len as int, zeros(to_len as nat)));
    }
}

/// Where a chunk lies in the bytes of a program.
#[derive(Debug, Default, Clone, Copy, PartialEq, Eq, Structural)]
pub struct ChunkIndex {
    offset: usize,
    length: usize,
    symbol: Option<DebugSymbol>,
}

impl ChunkIndex {
    pub closed spec fn offset(&self) -> nat {
        self.offset as nat
    }

    pub closed spec fn length(&self) -> nat {
        self.length as nat
    }

    pub closed spec fn symbol(&self) -> Option<DebugSymbol> {
        self.symbol
    }

    /// The first position of the chunk and the position after its last.
    pub fn as_range(&self) -> (range: (usize, usize))
        requires
            self.offset() + self.length() <= usize::MAX,
        ensures
            range.0 == self.offset(),
            range.1 == self.offset() + self.length(),
    {
        (self.offset, self.offset + self.length)
    }

    pub fn debug_symbols(&self) -> (symbol: Option<&DebugSymbol>)
        ensures
            symbol == match self.symbol() {
                Some(symbol) => Some(&symbol),
                None => None,
            },
    {
        self.symbol.as_ref()
    }
}

/// Where a string lies in the bytes of a program.
#[derive(Debug, Default, Clone, Copy, PartialEq, Eq, Structural)]
pub struct StringIndex {
    offset: usize,
    length: usize,
}

impl StringIndex {
    pub closed spec fn offset(&self) -> nat {
        self.offset as nat
    }

    pub closed spec fn length(&self) -> nat {
        self.length as nat
    }

    /// The first position of the string and the position after its last.
    pub fn as_range(&self) -> (range: (usize, usize))
        requires
            self.offset() + self.length() <= usize::MAX,
        ensures
            range.0 == self.offset(),
            range.1 == self.offset() + self.length(),
    {
        (self.offset, self.offset + self.length)
    }
}

/// The number that the bytes of `bytes` spell, the first byte counting
/// least.
pub open spec fn le_value(bytes: Seq<u8>) -> nat
    decreases bytes.len(),
{
    if bytes.len() == 0 {
        0
    } else {
        bytes[0] as nat + 256 * le_value(bytes.skip(1))
    }
}

/// A number of its own for each constant: the constants are told apart by it.
pub open spec fn const_key(value: Constant) -> nat {
    match value {
        Constant::Integer(v) => (v + 0x8000_0000_0000_0000) as nat,
        Constant::Float(bytes) => (0x1_0000_0000_0000_0000 + le_value(bytes@)) as nat,
        Constant::String(index) => (0x2_0000_0000_0000_0000 + index) as nat,
        Constant::Function(chunk_id, fun_id) => (0x3_0000_0000_0000_0000 + chunk_id * 0x1_0000
            + fun_id) as nat,
    }
}

/// The bytes of a number below `256^n` spell it, and only they do.
pub proof fn lemma_le_value(a: Seq<u8>, b: Seq<u8>)
    requires
        a.len() == b.len(),
        le_value(a) == le_value(b),
    ensures
        a == b,
    decreases a.len(),
{
    if a.len() > 0 {
        let ra = le_value(a.skip(1));
        let rb = le_value(b.skip(1));
        assert(a[0] as nat + 256 * ra == b[0] as nat + 256 * rb);
        assert(a[0] == b[0] && ra == rb) by {
            if ra < rb {
                assert(256 * ra + 256 <= 256 * rb);
            }
            if rb < ra {
                assert(256 * rb + 256 <= 256 * ra);
            }
        }
        lemma_le_value(a.skip(1), b.skip(1));
        assert(a =~= seq![a[0]] + a.skip(1));
        assert(b =~= seq![b[0]] + b.skip(1));
    } else {
        assert(a =~= b);
    }
}

/// `le_value` stays below `256^len`.
pub proof fn lemma_le_value_bound(bytes: Seq<u8>)
    requires
        bytes.len() == 8,
    ensures
        le_value(bytes) < 0x1_0000_0000_0000_0000,
{
    reveal_with_fuel(le_value, 9);
    assert(bytes.skip(1).skip(1).skip(1).skip(1).skip(1).skip(1).skip(1).skip(1).len() == 0);
}

/// Two constants with one key are one constant.
pub proof fn lemma_const_key_injective(a: Constant, b: Constant)
    requires
        const_key(a) == const_key(b),
    ensures
        a == b,
{
    match a {
        Constant::Float(bytes) => {
            lemma_le_value_bound(bytes@);
        },
        _ => {},
    }
    match b {
        Constant::Float(bytes) => {
            lemma_le_value_bound(bytes@);
        },
        _ => {},
    }
    match (a, b) {
        (Constant::Float(x), Constant::Float(y)) => {
            lemma_le_value(x@, y@);
            assert(x =~= y);
        },
        _ => {},
    }
}

/// The key of a constant.
fn key_of(value: &Constant) -> (key: u128)
    ensures
        key == const_key(*value),
{
    match value {
        Constant::Integer(v) => (*v as i128 + 0x8000_0000_0000_0000i128) as u128,
        Constant::Float(bytes) => {
            let mut acc: u128 = 0;
            let mut i: usize = 8;
            while i > 0
                invariant
                    i <= 8,
                    acc == le_value(bytes@.skip(i as int)),
                    acc < 0x1_0000_0000_0000_0000,
                decreases i,
            {
                i -= 1;
                proof {
                    assert(bytes@.skip(i as int).skip(1) =~= bytes@.skip(i + 1));
                    lemma_le_value_bound_any(bytes@.skip(i + 1));
                    lemma_le_value_bound_any(bytes@.skip(i as int));
                }
                acc = bytes[i] as u128 + 256 * acc;
            }
            assert(bytes@.skip(0) =~= bytes@);
            0x1_0000_0000_0000_0000u128 + acc
        },
        Constant::String(index) => 0x2_0000_0000_0000_0000u128 + *index as u128,
        Constant::Function(chunk_id, fun_id) => 0x3_0000_0000_0000_0000u128 + *chunk_id as u128
            * 0x1_0000u128 + *fun_id as u128,
    }
}

/// `le_value` of at most eight bytes stays below `2^64`.
pub proof fn lemma_le_value_bound_any(bytes: Seq<u8>)
    requires
        bytes.len() <= 8,
    ensures
        le_value(bytes) < 0x1_0000_0000_0000_0000,
    decreases bytes.len(),
{
    reveal_with_fuel(le_value, 9);
    if bytes.len() > 0 {
        let b1 = bytes.skip(1);
        if b1.len() > 0 {
            let b2 = b1.skip(1);
            if b2.len() > 0 {
                let b3 = b2.skip(1);
                if b3.len() > 0 {
                    let b4 = b3.skip(1);
                    if b4.len() > 0 {
                        let b5 = b4.skip(1);
                        if b5.len() > 0 {
                            let b6 = b5.skip(1);
                            if b6.len() > 0 {
                                let b7 = b6.skip(1);
                                if b7.len() > 0 {
                                    assert(b7.skip(1).len() == 0);
                                }
                            }
                        }
                    }
                }
            }
        }
    }
}

/// The most constants, and the most chunks, that ids can tell apart.
pub const ID_LIMIT: usize = 0x1_0000;

/// What adding `value` to the constants `pool` gives: the constants after
/// it, and the id of `value`. A constant that the pool holds keeps its id;
/// a new one comes behind the others, unless no id is left for it.
pub open spec fn pool_insert(pool: Seq<Constant>, value: Constant) -> (
    Seq<Constant>,
    Result<ConstID, ErrorKind>,
) {
    if pool.contains(value) {
        (pool, Ok(pool.index_of(value) as ConstID))
    } else if pool.len() < ID_LIMIT {
        (pool.push(value), Ok(pool.len() as ConstID))
    } else {
        (pool, Err(ErrorKind::ConstPoolLimit))
    }
}

/// A constant that was added once gets the same id when it is added again,
/// and the second time nothing changes.
pub proof fn lemma_same_constant_same_id(pool: Seq<Constant>, value: Constant)
    requires
        pool_insert(pool, value).1 is Ok,
    ensures
        pool_insert(pool_insert(pool, value).0, value) == pool_insert(pool, value),
{
    if !pool.contains(value) {
        let after = pool.push(value);
        assert(after[pool.len() as int] == value);
        assert(after.contains(value));
        let i = after.index_of(value);
        assert(0 <= i < after.len() && after[i] == value);
        if i < pool.len() {
            assert(pool[i] == value);
        }
    }
}

/// Collects the chunks, the constants and the strings of a program while it
/// is compiled.
pub struct ChunkBuilder {
    chunks: Vec<ChunkBuf>,
    consts: Vec<Constant>,
    functions: Vec<Signature>,
    dedup: HashMap<u128, ConstID>,
    strings: Interner,
}

impl ChunkBuilder {
    /// The bytes of each chunk.
    pub closed spec fn chunks(&self) -> Seq<Seq<u8>> {
        Seq::new(self.chunks@.len(), |i: int| self.chunks@[i]@)
    }

    /// The constants, each at the position that is its id.
    pub closed spec fn consts(&self) -> Seq<Constant> {
        self.consts@
    }

    /// The signatures of the functions, each at the position that is its id.
    pub closed spec fn functions(&self) -> Seq<SignatureView> {
        Seq::new(self.functions@.len(), |i: int| self.functions@[i]@)
    }

    /// The strings, each at the position that is its symbol.
    pub closed spec fn strings(&self) -> Seq<Seq<char>> {
        self.strings@
    }

    /// The invariant of the builder: it has a first chunk, its chunks and
    /// constants have ids, and it knows each constant by its key.
    pub closed spec fn wf(&self) -> bool {
        &&& 1 <= self.chunks@.len() <= ID_LIMIT
        &&& self.consts@.len() <= ID_LIMIT
        &&& forall|i: int|
            0 <= i < self.consts@.len() ==> self.dedup@.contains_key(
                const_key(#[trigger] self.consts@[i]) as u128,
            ) && self.dedup@[const_key(self.consts@[i]) as u128] == i
        &&& forall|key: u128| #[trigger]
            self.dedup@.contains_key(key) ==> self.dedup@[key] < self.consts@.len() && const_key(
                self.consts@[self.dedup@[key] as int],
            ) == key
    }

    pub fn new() -> (builder: ChunkBuilder)
        ensures
            builder.wf(),
            builder.chunks() == seq![Seq::<u8>::empty()],
            builder.consts() == Seq::<Constant>::empty(),
            builder.functions() == Seq::<SignatureView>::empty(),
            builder.strings() == Seq::<Seq<char>>::empty(),
    {
        ChunkBuilder::with_strings(Interner::new())
    }

    /// A builder that goes on from the strings interned so far.
    pub fn with_strings(strings: Interner) -> (builder: ChunkBuilder)
        ensures
            builder.wf(),
            builder.chunks() == seq![Seq::<u8>::empty()],
            builder.consts() == Seq::<Constant>::empty(),
            builder.functions() == Seq::<SignatureView>::empty(),
            builder.strings() == strings@,
    {
        broadcast use vstd::std_specs::hash::group_hash_axioms;

        let mut chunks: Vec<ChunkBuf> = Vec::new();
        chunks.push(ChunkBuf::new());
        let builder = ChunkBuilder {
            chunks,
            consts: Vec::new(),
            functions: Vec::new(),
            dedup: HashMap::new(),
            strings,
        };
        assert(builder.chunks() =~= seq![Seq::<u8>::empty()]);
        assert(builder.functions() =~= Seq::<SignatureView>::empty());
        builder
    }

    /// Starts a new, empty chunk and tells its id.
    pub fn new_chunk(&mut self) -> (result: CompileResult<ChunkID>)
        requires
            old(self).wf(),
        ensures
            final(self).wf(),
            final(self).consts() == old(self).consts(),
            final(self).functions() == old(self).functions(),
            final(self).strings() == old(self).strings(),
            old(self).chunks().len() < ID_LIMIT ==> result == Ok::<ChunkID, CompileError>(
                old(self).chunks().len() as ChunkID,
            ) && final(self).chunks() == old(self).chunks().push(Seq::<u8>::empty()),
            old(self).chunks().len() >= ID_LIMIT ==> result == Err::<ChunkID, CompileError>(
                CompileError { kind: ErrorKind::ChunkCountLimit, symbol: None },
            ) && final(self).chunks() == old(self).chunks(),
    {
        if self.chunks.len() >= ID_LIMIT {
            return Err(CompileError::new(ErrorKind::ChunkCountLimit));
        }
        let chunk_id = self.chunks.len() as ChunkID;
        self.chunks.push(ChunkBuf::new());
        assert(self.chunks() =~= old(self).chunks().push(Seq::<u8>::empty()));
        Ok(chunk_id)
    }

    pub fn chunk(&self, chunk_id: ChunkID) -> (chunk: &ChunkBuf)
        requires
            chunk_id < self.chunks().len(),
        ensures
            chunk@ == self.chunks()[chunk_id as int],
    {
        &self.chunks[chunk_id as usize]
    }

    pub fn chunk_mut(&mut self, chunk_id: ChunkID) -> (chunk: &mut ChunkBuf)
        requires
            old(self).wf(),
            chunk_id < old(self).chunks().len(),
        ensures
            chunk@ == old(self).chunks()[chunk_id as int],
            final(self).wf(),
            final(self).chunks() == old(self).chunks().update(chunk_id as int, final(chunk)@),
            final(self).consts() == old(self).consts(),
            final(self).functions() == old(self).functions(),
            final(self).strings() == old(self).strings(),
    {
        &mut self.chunks[chunk_id as usize]
    }

    /// The id of the constant `value`, which is added to the constants if
    /// they do not hold it yet.
    pub fn get_or_insert_const(&mut self, value: Constant) -> (result: CompileResult<ConstID>)
        requires
            old(self).wf(),
        ensures
            final(self).wf(),
            final(self).chunks() == old(self).chunks(),
            final(self).functions() == old(self).functions(),
            final(self).strings() == old(self).strings(),
            final(self).consts() == pool_insert(old(self).consts(), value).0,
            match result {
                Ok(id) => pool_insert(old(self).consts(), value).1 == Ok::<ConstID, ErrorKind>(id),
                Err(error) => pool_insert(old(self).consts(), value).1 is Err && error == (
                    CompileError {
                        kind: pool_insert(old(self).consts(), value).1->Err_0,
                        symbol: None,
                    }),
            },
    {
        broadcast use vstd::std_specs::hash::group_hash_axioms;

        let key = key_of(&value);
        let ghost pool = self.consts@;
        let found = match self.dedup.get(&key) {
            Some(cid) => Some(*cid),
            None => None,
        };
        match found {
            Some(cid) => {
                proof {
                    lemma_const_key_injective(pool[cid as int], value);
                    assert(pool.contains(value));
                    let i = pool.index_of(value);
                    assert(0 <= i < pool.len() && pool[i] == value);
                    assert(self.dedup@[const_key(pool[i]) as u128] == i);
                }
                Ok(cid)
            },
            None => {
                proof {
                    if pool.contains(value) {
                        let i = pool.index_of(value);
                        assert(0 <= i < pool.len() && pool[i] == value);
                        assert(self.dedup@.contains_key(const_key(pool[i]) as u128));
                    }
                }
                if self.consts.len() >= ID_LIMIT {
                    return Err(CompileError::new(ErrorKind::ConstPoolLimit));
                }
                let cid = self.consts.len() as ConstID;
                self.consts.push(value);
                self.dedup.insert(key, cid);
                proof {
                    assert forall|i: int| 0 <= i < self.consts@.len() implies self.dedup@.contains_key(
                        const_key(#[trigger] self.consts@[i]) as u128,
                    ) && self.dedup@[const_key(self.consts@[i]) as u128] == i by {
                        if i < pool.len() {
                            assert(self.consts@[i] == pool[i]);
                            if const_key(pool[i]) == const_key(value) {
                                lemma_const_key_injective(pool[i], value);
                            }
                        }
                    }
                    assert forall|k: u128| #[trigger] self.dedup@.contains_key(k) implies self.dedup@[k]
                        < self.consts@.len() && const_key(self.consts@[self.dedup@[k] as int])
                        == k by {
                        if k != key {
                            assert(old(self).dedup@.contains_key(k));
                            assert(self.consts@[old(self).dedup@[k] as int] == pool[old(self).dedup@[k] as int]);
                        }
                    }
                }
                Ok(cid)
            },
        }
    }

    /// The id of the string constant `string`, which is interned first.
    pub fn get_or_insert_str(&mut self, string: &str) -> (result: CompileResult<ConstID>)
        requires
            old(self).wf(),
            old(self).strings().len() < SYMBOL_LIMIT,
        ensures
            final(self).wf(),
            final(self).chunks() == old(self).chunks(),
            final(self).functions() == old(self).functions(),
            old(self).strings().contains(string@) ==> final(self).strings() == old(self).strings(),
            !old(self).strings().contains(string@) ==> final(self).strings() == old(self).strings().push(string@),
            final(self).strings().contains(string@),
            ({
                let index = final(self).strings().index_of(string@) as usize;
                let outcome = pool_insert(old(self).consts(), Constant::String(index));
                &&& final(self).consts() == outcome.0
                &&& match result {
                    Ok(id) => outcome.1 == Ok::<ConstID, ErrorKind>(id),
                    Err(error) => outcome.1 is Err && error == (CompileError {
                        kind: outcome.1->Err_0,
                        symbol: None,
                    }),
                }
            }),
    {
        let symbol = self.strings.get_or_intern(string);
        let index = symbol.to_usize();
        let count = self.strings.len();
        proof {
            let strings = self.strings@;
            assert(strings[index as int] == string@);
            assert(strings.contains(string@));
            let found = strings.index_of(string@);
            assert(0 <= found < strings.len() && strings[found] == string@);
            assert(found == index);
        }
        self.get_or_insert_const(Constant::String(index))
    }

    /// The program made of what was collected: the bytes of the chunks one
    /// after the other, then the bytes of the strings, with a table that says
    /// where each chunk and each string lies.
    pub fn build(self) -> (program: UnloadedProgram)
        requires
            self.wf(),
        ensures
            program@.chunks == self.chunks(),
            program@.strings == self.strings(),
            program@.consts == self.consts(),
            program@.functions == self.functions(),
            forall|i: int|
                0 <= i < self.chunks().len() ==> (#[trigger] program@.symbols[i])
                    == self.chunk_symbol(i),
            program@.symbols.len() == self.chunks().len(),
    {
        let mut bytes: Vec<u8> = Vec::new();
        let chunks = pack_chunks(&self.chunks, &mut bytes);
        let ghost code = bytes@;
        let strings = pack_strings(&self.strings, &mut bytes);
        proof {
            assert forall|j: int| 0 <= j < chunks@.len() implies chunk_bytes(bytes@, #[trigger] chunks@[j])
                == self.chunks@[j]@ by {
                lemma_total_len_step(chunks@, j, chunks@.len() as int);
                assert(chunk_bytes(bytes@, chunks@[j]) =~= chunk_bytes(code, chunks@[j]));
            }
            assert forall|j: int| 0 <= j < strings@.len() implies valid_utf8(
                string_bytes(bytes@, #[trigger] strings@[j]),
            ) by {
                encode_utf8_valid_utf8(self.strings@[j]);
            }
        }
        let program = UnloadedProgram {
            bytes,
            chunks,
            strings,
            consts: self.consts,
            functions: self.functions,
        };
        proof {
            assert(program@.chunks =~= self.chunks());
            assert(program@.strings =~= self.strings()) by {
                assert forall|j: int| 0 <= j < strings@.len() implies program@.strings[j]
                    == self.strings@[j] by {
                    encode_utf8_decode_utf8(self.strings@[j]);
                }
            }
            assert(program@.functions =~= self.functions());
        }
        program
    }

    /// The source text that chunk `i` came from, where that is known.
    pub closed spec fn chunk_symbol(&self, i: int) -> Option<DebugSymbol> {
        self.chunks@[i].symbol
    }
}

/// The length of the first `count` of `chunks` together.
pub open spec fn total_len(chunks: Seq<ChunkIndex>, count: int) -> nat
    decreases count,
{
    if count <= 0 {
        0
    } else {
        total_len(chunks, count - 1) + chunks[count - 1].length()
    }
}

/// Whether `chunks` lie one after the other from position 0.
pub open spec fn tiled(chunks: Seq<ChunkIndex>) -> bool {
    forall|i: int| 0 <= i < chunks.len() ==> (#[trigger] chunks[i]).offset() == total_len(chunks, i)
}

/// The bytes of `bytes` that `chunk` points at.
pub open spec fn chunk_bytes(bytes: Seq<u8>, chunk: ChunkIndex) -> Seq<u8> {
    bytes.subrange(chunk.offset() as int, (chunk.offset() + chunk.length()) as int)
}

/// The bytes of `bytes` that `string` points at.
pub open spec fn string_bytes(bytes: Seq<u8>, string: StringIndex) -> Seq<u8> {
    bytes.subrange(string.offset() as int, (string.offset() + string.length()) as int)
}

/// The length of a prefix of `chunks` does not depend on what follows it.
pub proof fn lemma_total_len_push(chunks: Seq<ChunkIndex>, chunk: ChunkIndex)
    ensures
        forall|count: int|
            0 <= count <= chunks.len() ==> #[trigger] total_len(chunks.push(chunk), count)
                == total_len(chunks, count),
        total_len(chunks.push(chunk), chunks.len() as int + 1) == total_len(chunks, chunks.len() as int)
            + chunk.length(),
        tiled(chunks) && chunk.offset() == total_len(chunks, chunks.len() as int) ==> tiled(
            chunks.push(chunk),
        ),
{
    assert forall|count: int| 0 <= count <= chunks.len() implies #[trigger] total_len(
        chunks.push(chunk),
        count,
    ) == total_len(chunks, count) by {
        lemma_total_len_prefix(chunks, chunks.push(chunk), count);
    }
    let after = chunks.push(chunk);
    assert(after[chunks.len() as int] == chunk);
    assert(total_len(after, chunks.len() as int) == total_len(chunks, chunks.len() as int));
    if tiled(chunks) && chunk.offset() == total_len(chunks, chunks.len() as int) {
        assert forall|i: int| 0 <= i < after.len() implies (#[trigger] after[i]).offset()
            == total_len(after, i) by {
            if i < chunks.len() {
                assert(after[i] == chunks[i]);
            }
        }
    }
}

/// Two tables that agree on their first `count` chunks give them one length.
pub proof fn lemma_total_len_prefix(a: Seq<ChunkIndex>, b: Seq<ChunkIndex>, count: int)
    requires
        0 <= count <= a.len(),
        count <= b.len(),
        forall|i: int| 0 <= i < count ==> a[i] == b[i],
    ensures
        total_len(a, count) == total_len(b, count),
    decreases count,
{
    if count > 0 {
        lemma_total_len_prefix(a, b, count - 1);
    }
}

/// A chunk of a tiled table ends where the chunks up to it end, before the
/// end of any longer run of chunks.
pub proof fn lemma_total_len_step(chunks: Seq<ChunkIndex>, i: int, count: int)
    requires
        0 <= i < count <= chunks.len(),
    ensures
        total_len(chunks, i) + chunks[i].length() <= total_len(chunks, count),
    decreases count - i,
{
    if i + 1 < count {
        lemma_total_len_step(chunks, i, count - 1);
    }
}

/// Puts the bytes of `chunks` behind `bytes`, which holds nothing yet, one
/// chunk after the other, and tells where each lies.
fn pack_chunks(chunks: &Vec<ChunkBuf>, bytes: &mut Vec<u8>) -> (table: Vec<ChunkIndex>)
    requires
        old(bytes)@.len() == 0,
    ensures
        table@.len() == chunks@.len(),
        tiled(table@),
        final(bytes)@.len() == total_len(table@, table@.len() as int),
        forall|j: int|
            0 <= j < chunks@.len() ==> chunk_bytes(final(bytes)@, #[trigger] table@[j])
                == chunks@[j]@ && table@[j].symbol == chunks@[j].symbol,
{
    let mut table: Vec<ChunkIndex> = Vec::new();
    let mut i: usize = 0;
    while i < chunks.len()
        invariant
            i <= chunks@.len(),
            table@.len() == i,
            tiled(table@),
            bytes@.len() == total_len(table@, i as int),
            forall|j: int|
                0 <= j < i ==> chunk_bytes(bytes@, #[trigger] table@[j]) == chunks@[j]@
                    && table@[j].symbol == chunks@[j].symbol,
        decreases chunks@.len() - i,
    {
        let chunk = &chunks[i];
        let offset = bytes.len();
        let length = chunk.len();
        let ghost before = bytes@;
        let ghost before_table = table@;
        bytes.extend_from_slice(chunk.as_slice());
        table.push(ChunkIndex { offset, length, symbol: chunk.symbol });
        proof {
            lemma_total_len_push(before_table, table@[i as int]);
            assert(chunk_bytes(bytes@, table@[i as int]) =~= chunk@);
            assert forall|j: int| 0 <= j < i implies chunk_bytes(bytes@, #[trigger] table@[j])
                == chunks@[j]@ by {
                assert(table@[j] == before_table[j]);
                lemma_total_len_step(before_table, j, i as int);
                assert(chunk_bytes(bytes@, table@[j]) =~= chunk_bytes(before, table@[j]));
            }
        }
        i += 1;
    }
    table
}

/// Puts the bytes of the strings of `strings` behind `bytes`, one string
/// after the other, and tells where each lies.
fn pack_strings(strings: &Interner, bytes: &mut Vec<u8>) -> (table: Vec<StringIndex>)
    ensures
        table@.len() == strings@.len(),
        old(bytes)@.len() <= final(bytes)@.len(),
        final(bytes)@.take(old(bytes)@.len() as int) == old(bytes)@,
        forall|j: int|
            0 <= j < table@.len() ==> (#[trigger] table@[j]).offset + table@[j].length
                <= final(bytes)@.len() && string_bytes(final(bytes)@, table@[j]) == encode_utf8(strings@[j]),
{
    let ghost code = bytes@;
    let count = strings.len();
    let mut table: Vec<StringIndex> = Vec::new();
    let mut n: usize = 0;
    assert(bytes@.take(code.len() as int) =~= code);
    while n < count
        invariant
            n <= count,
            count == strings@.len(),
            count <= SYMBOL_LIMIT,
            table@.len() == n,
            code == old(bytes)@,
            code.len() <= bytes@.len(),
            bytes@.take(code.len() as int) == code,
            forall|j: int|
                0 <= j < n ==> (#[trigger] table@[j]).offset + table@[j].length <= bytes@.len()
                    && string_bytes(bytes@, table@[j]) == encode_utf8(strings@[j]),
        decreases count - n,
    {
        let symbol = match InternSymbol::try_from_usize(n) {
            Some(symbol) => symbol,
            None => unreached(),
        };
        let string = match strings.resolve(symbol) {
            Some(string) => string,
            None => unreached(),
        };
        let text = string.as_bytes();
        let offset = bytes.len();
        let length = text.len();
        let ghost before = bytes@;
        bytes.extend_from_slice(text);
        table.push(StringIndex { offset, length });
        proof {
            assert(bytes@.take(code.len() as int) =~= before.take(code.len() as int));
            assert(string_bytes(bytes@, table@[n as int]) =~= text@);
            assert forall|j: int| 0 <= j < n implies string_bytes(bytes@, #[trigger] table@[j])
                == encode_utf8(strings@[j]) by {
                assert(string_bytes(bytes@, table@[j]) =~= string_bytes(before, table@[j]));
            }
        }
        n += 1;
    }
    table
}

/// Calls `core::str::from_utf8`: the text that `bytes` encode, if they are
/// valid UTF-8.
#[verifier::external_body]
fn utf8_text(bytes: &[u8]) -> (text: Option<&str>)
    ensures
        text.is_some() <==> valid_utf8(bytes@),
        text.is_some() ==> text.unwrap().spec_bytes() == bytes@,
{
    core::str::from_utf8(bytes).ok()
}

/// What an unloaded program is.
pub ghost struct UnloadedView {
    /// The bytecode of each chunk.
    pub chunks: Seq<Seq<u8>>,
    /// The source text that each chunk came from, where that is known.
    pub symbols: Seq<Option<DebugSymbol>>,
    /// The strings, each at the position that string constants refer to.
    pub strings: Seq<Seq<char>>,
    pub consts: Seq<Constant>,
    pub functions: Seq<SignatureView>,
}

/// A program whose strings are not in the string table of the process yet.
/// It cannot be run; in return it holds all that it needs, so it can be
/// handed to another thread or written out.
#[derive(Debug)]
pub struct UnloadedProgram {
    bytes: Vec<u8>,
    chunks: Vec<ChunkIndex>,
    strings: Vec<StringIndex>,
    consts: Vec<Constant>,
    functions: Vec<Signature>,
}

impl View for UnloadedProgram {
    type V = UnloadedView;

    closed spec fn view(&self) -> UnloadedView {
        UnloadedView {
            chunks: Seq::new(self.chunks@.len(), |i: int| chunk_bytes(self.bytes@, self.chunks@[i])),
            symbols: Seq::new(self.chunks@.len(), |i: int| self.chunks@[i].symbol),
            strings: Seq::new(
                self.strings@.len(),
                |i: int| decode_utf8(string_bytes(self.bytes@, self.strings@[i])),
            ),
            consts: self.consts@,
            functions: Seq::new(self.functions@.len(), |i: int| self.functions@[i]@),
        }
    }
}

impl UnloadedProgram {
    #[verifier::type_invariant]
    spec fn type_inv(&self) -> bool {
        &&& self.chunks@.len() <= ID_LIMIT
        &&& tiled(self.chunks@)
        &&& total_len(self.chunks@, self.chunks@.len() as int) <= self.bytes@.len()
        &&& forall|i: int|
            0 <= i < self.strings@.len() ==> (#[trigger] self.strings@[i]).offset
                + self.strings@[i].length <= self.bytes@.len() && valid_utf8(
                string_bytes(self.bytes@, self.strings@[i]),
            )
    }

    /// The bytecode of a chunk.
    pub fn chunk(&self, chunk_id: ChunkID) -> (code: &[u8])
        requires
            chunk_id < self@.chunks.len(),
        ensures
            code@ == self@.chunks[chunk_id as int],
    {
        proof {
            use_type_invariant(self);
            lemma_total_len_step(self.chunks@, chunk_id as int, self.chunks@.len() as int);
        }
        let chunk_idx = &self.chunks[chunk_id as usize];
        let len = self.bytes.len();
        let (from, to) = chunk_idx.as_range();
        slice_subrange(self.bytes.as_slice(), from, to)
    }

    /// The ids of the chunks, in rising order.
    pub fn chunk_ids(&self) -> (ids: Vec<ChunkID>)
        ensures
            ids@.len() == self@.chunks.len(),
            forall|i: int| 0 <= i < ids@.len() ==> (#[trigger] ids@[i]) == i,
    {
        proof {
            use_type_invariant(self);
        }
        let mut ids: Vec<ChunkID> = Vec::new();
        let mut i: usize = 0;
        while i < self.chunks.len()
            invariant
                self.chunks@.len() <= ID_LIMIT,
                i <= self.chunks@.len(),
                ids@.len() == i,
                forall|j: int| 0 <= j < i ==> (#[trigger] ids@[j]) == j,
            decreases self.chunks@.len() - i,
        {
            ids.push(i as ChunkID);
            i += 1;
        }
        ids
    }

    /// The string at position `index`.
    pub fn string(&self, index: usize) -> (string: &str)
        requires
            index < self@.strings.len(),
        ensures
            string@ == self@.strings[index as int],
    {
        proof {
            use_type_invariant(self);
        }
        let string_idx = &self.strings[index];
        let len = self.bytes.len();
        let (from, to) = string_idx.as_range();
        let text = slice_subrange(self.bytes.as_slice(), from, to);
        match utf8_text(text) {
            Some(string) => {
                proof {
                    encode_utf8_decode_utf8(string@);
                }
                string
            },
            None => unreached(),
        }
    }

    /// The strings, in the order of their positions.
    pub fn iter_strings(&self) -> (strings: Vec<&str>)
        ensures
            strings@.len() == self@.strings.len(),
            forall|i: int| 0 <= i < strings@.len() ==> (#[trigger] strings@[i])@ == self@.strings[i],
    {
        let mut strings: Vec<&str> = Vec::new();
        let mut i: usize = 0;
        while i < self.strings.len()
            invariant
                i <= self.strings@.len(),
                strings@.len() == i,
                forall|j: int| 0 <= j < i ==> (#[trigger] strings@[j])@ == self@.strings[j],
            decreases self.strings@.len() - i,
        {
            strings.push(self.string(i));
            i += 1;
        }
        strings
    }

    /// The constant with the id `index`.
    pub fn lookup_const<I: Into<ConstID>>(&self, index: I) -> (constant: &Constant)
        requires
            I::obeys_into_spec(),
            index.into_spec() < self@.consts.len(),
        ensures
            *constant == self@.consts[index.into_spec() as int],
    {
        let id: ConstID = index.into();
        &self.consts[id as usize]
    }
}

/// What a loaded program is.
pub ghost struct ProgramView {
    /// The bytecode of each chunk.
    pub chunks: Seq<Seq<u8>>,
    /// The source text that each chunk came from, where that is known.
    pub symbols: Seq<Option<DebugSymbol>>,
    /// The symbols of the strings in the string table of the process, each at
    /// the position that string constants refer to.
    pub strings: Seq<StringSymbol>,
    pub consts: Seq<Constant>,
    pub functions: Seq<SignatureView>,
}

/// A program whose strings are in the string table of the process: it holds
/// their symbols, and bytecode only.
#[derive(Debug)]
pub struct Program {
    bytes: Vec<u8>,
    chunks: Vec<ChunkIndex>,
    consts: Vec<Constant>,
    functions: Vec<Signature>,
    strings: Vec<StringSymbol>,
}

impl View for Program {
    type V = ProgramView;

    closed spec fn view(&self) -> ProgramView {
        ProgramView {
            chunks: Seq::new(self.chunks@.len(), |i: int| chunk_bytes(self.bytes@, self.chunks@[i])),
            symbols: Seq::new(self.chunks@.len(), |i: int| self.chunks@[i].symbol),
            strings: self.strings@,
            consts: self.consts@,
            functions: Seq::new(self.functions@.len(), |i: int| self.functions@[i]@),
        }
    }
}

/// Whether every symbol of `symbols` stands for a string of `table`.
pub open spec fn resolvable(symbols: Seq<StringSymbol>, table: Seq<Seq<char>>) -> bool {
    forall|i: int| 0 <= i < symbols.len() ==> (#[trigger] symbols[i]).index() < table.len()
}

/// The strings of `table` that `symbols` stand for.
pub open spec fn resolved(symbols: Seq<StringSymbol>, table: Seq<Seq<char>>) -> Seq<Seq<char>> {
    Seq::new(symbols.len(), |i: int| table[symbols[i].index() as int])
}

/// What the constant `constant` is as a value, in a program with the string
/// symbols `strings`.
pub open spec fn const_value(constant: Constant, strings: Seq<StringSymbol>) -> Value {
    match constant {
        Constant::Integer(value) => Value::Integer(value),
        Constant::Float(bytes) => Value::Float(bytes@),
        Constant::String(index) => Value::String(strings[index as int]),
        Constant::Function(..) => Value::Nil,
    }
}

impl Program {
    #[verifier::type_invariant]
    spec fn type_inv(&self) -> bool {
        &&& self.chunks@.len() <= ID_LIMIT
        &&& tiled(self.chunks@)
        &&& total_len(self.chunks@, self.chunks@.len() as int) == self.bytes@.len()
    }

    /// The bytecode of a chunk.
    pub fn chunk(&self, chunk_id: ChunkID) -> (code: &[u8])
        requires
            chunk_id < self@.chunks.len(),
        ensures
            code@ == self@.chunks[chunk_id as int],
    {
        proof {
            use_type_invariant(self);
            lemma_total_len_step(self.chunks@, chunk_id as int, self.chunks@.len() as int);
        }
        let chunk = &self.chunks[chunk_id as usize];
        let len = self.bytes.len();
        let (from, to) = chunk.as_range();
        slice_subrange(self.bytes.as_slice(), from, to)
    }

    /// The constant with the id `index`.
    pub fn lookup_const<I: Into<ConstID>>(&self, index: I) -> (constant: &Constant)
        requires
            I::obeys_into_spec(),
            index.into_spec() < self@.consts.len(),
        ensures
            *constant == self@.consts[index.into_spec() as int],
    {
        self.const_at(index.into())
    }

    /// The constant with the id `id`.
    pub fn const_at(&self, id: ConstID) -> (constant: &Constant)
        requires
            id < self@.consts.len(),
        ensures
            *constant == self@.consts[id as int],
    {
        &self.consts[id as usize]
    }

    /// The number of constants.
    pub fn const_count(&self) -> (count: usize)
        ensures
            count == self@.consts.len(),
    {
        self.consts.len()
    }

    /// The number of strings.
    pub fn string_count(&self) -> (count: usize)
        ensures
            count == self@.strings.len(),
    {
        self.strings.len()
    }

    /// The number of chunks.
    pub fn chunk_count(&self) -> (count: usize)
        ensures
            count == self@.chunks.len(),
    {
        self.chunks.len()
    }

    /// The value of the constant with the id `index`. A string constant must
    /// refer to a string of the program; a function constant has no value yet.
    pub fn lookup_value<I: Into<ConstID>>(&self, index: I) -> (value: Variant)
        requires
            I::obeys_into_spec(),
            index.into_spec() < self@.consts.len(),
            !(self@.consts[index.into_spec() as int] is Function),
            self@.consts[index.into_spec() as int] matches Constant::String(at) ==> at
                < self@.strings.len(),
        ensures
            value@ == const_value(self@.consts[index.into_spec() as int], self@.strings),
    {
        self.value_at(index.into())
    }

    /// The value of the constant with the id `id`.
    pub fn value_at(&self, id: ConstID) -> (value: Variant)
        requires
            id < self@.consts.len(),
            !(self@.consts[id as int] is Function),
            self@.consts[id as int] matches Constant::String(at) ==> at < self@.strings.len(),
        ensures
            value@ == const_value(self@.consts[id as int], self@.strings),
    {
        match self.const_at(id) {
            Constant::Integer(value) => Variant::Integer(*value),
            Constant::Float(bytes) => Variant::Float(*bytes),
            Constant::String(idx) => Variant::String(self.strings[*idx]),
            Constant::Function(chunk_id, function_id) => Variant::Nil,
        }
    }

    /// Loads `program`: each of its strings is interned in `table`, and the
    /// loaded program holds the symbols in their place. The table must have
    /// room for them.
    pub fn load(program: UnloadedProgram, table: &mut StringTable) -> (loaded: Program)
        requires
            old(table)@.len() + program@.strings.len() <= SYMBOL_LIMIT,
        ensures
            loaded@.chunks == program@.chunks,
            loaded@.symbols == program@.symbols,
            loaded@.consts == program@.consts,
            loaded@.functions == program@.functions,
            resolvable(loaded@.strings, final(table)@),
            resolved(loaded@.strings, final(table)@) == program@.strings,
            old(table)@.len() <= final(table)@.len(),
            final(table)@.take(old(table)@.len() as int) == old(table)@,
    {
        proof {
            use_type_invariant(&program);
        }
        let mut strings: Vec<StringSymbol> = Vec::new();
        let mut i: usize = 0;
        let count = program.strings.len();
        while i < count
            invariant
                i <= count,
                count == program@.strings.len(),
                strings@.len() == i,
                old(table)@.len() + count <= SYMBOL_LIMIT,
                old(table)@.len() <= table@.len() <= old(table)@.len() + i,
                table@.take(old(table)@.len() as int) == old(table)@,
                resolvable(strings@, table@),
                forall|j: int|
                    0 <= j < i ==> table@[(#[trigger] strings@[j]).index() as int]
                        == program@.strings[j],
            decreases count - i,
        {
            let string = program.string(i);
            let ghost before = table@;
            let symbol = table.get_or_intern(string);
            proof {
                assert(table@.take(old(table)@.len() as int) =~= before.take(
                    old(table)@.len() as int,
                ));
                assert forall|j: int| 0 <= j < i implies table@[(#[trigger] strings@[j]).index() as int]
                    == program@.strings[j] by {
                    assert(before[strings@[j].index() as int] == table@[strings@[j].index() as int]);
                }
            }
            strings.push(symbol);
            i += 1;
        }
        let mut byte_len: usize = 0;
        let mut c: usize = 0;
        while c < program.chunks.len()
            invariant
                c <= program.chunks@.len(),
                byte_len == total_len(program.chunks@, c as int),
                total_len(program.chunks@, program.chunks@.len() as int) <= program.bytes@.len(),
            decreases program.chunks@.len() - c,
        {
            proof {
                lemma_total_len_step(program.chunks@, c as int, program.chunks@.len() as int);
            }
            let len = program.bytes.len();
            byte_len = byte_len + program.chunks[c].length;
            c += 1;
        }
        let ghost before = program@;
        let ghost all = program.bytes@;
        let mut bytes = program.bytes;
        bytes.truncate(byte_len);
        let loaded = Program {
            bytes,
            chunks: program.chunks,
            consts: program.consts,
            functions: program.functions,
            strings,
        };
        proof {
            assert(loaded@.chunks =~= before.chunks) by {
                assert forall|j: int| 0 <= j < loaded.chunks@.len() implies chunk_bytes(
                    loaded.bytes@,
                    #[trigger] loaded.chunks@[j],
                ) == chunk_bytes(all, loaded.chunks@[j]) by {
                    lemma_total_len_step(loaded.chunks@, j, loaded.chunks@.len() as int);
                    assert(chunk_bytes(loaded.bytes@, loaded.chunks@[j]) =~= chunk_bytes(
                        all,
                        loaded.chunks@[j],
                    ));
                }
            }
            assert(loaded@.symbols =~= before.symbols);
            assert(loaded@.functions =~= before.functions);
            assert(resolved(loaded@.strings, table@) =~= before.strings);
        }
        loaded
    }

    /// Makes the program self-contained again: the strings that its symbols
    /// stand for in `table` are put behind its bytecode.
    pub fn unload(self, table: &StringTable) -> (program: UnloadedProgram)
        requires
            resolvable(self@.strings, table@),
        ensures
            program@.chunks == self@.chunks,
            program@.symbols == self@.symbols,
            program@.consts == self@.consts,
            program@.functions == self@.functions,
            program@.strings == resolved(self@.strings, table@),
    {
        proof {
            use_type_invariant(&self);
        }
        let ghost code = self.bytes@;
        let ghost before = self@;
        let symbols = self.strings;
        let mut bytes = self.bytes;
        let mut strings: Vec<StringIndex> = Vec::new();
        let mut i: usize = 0;
        while i < symbols.len()
            invariant
                i <= symbols@.len(),
                resolvable(symbols@, table@),
                strings@.len() == i,
                code.len() <= bytes@.len(),
                bytes@.take(code.len() as int) == code,
                forall|j: int|
                    0 <= j < i ==> (#[trigger] strings@[j]).offset + strings@[j].length
                        <= bytes@.len() && string_bytes(bytes@, strings@[j]) == encode_utf8(
                        table@[symbols@[j].index() as int],
                    ),
            decreases symbols@.len() - i,
        {
            let string = table.resolve(&symbols[i]);
            let text = string.as_bytes();
            let offset = bytes.len();
            let length = text.len();
            let ghost prior = bytes@;
            bytes.extend_from_slice(text);
            strings.push(StringIndex { offset, length });
            proof {
                assert(bytes@.take(code.len() as int) =~= prior.take(code.len() as int));
                assert(string_bytes(bytes@, strings@[i as int]) =~= text@);
                assert forall|j: int| 0 <= j < i implies string_bytes(bytes@, #[trigger] strings@[j])
                    == encode_utf8(table@[symbols@[j].index() as int]) by {
                    assert(string_bytes(bytes@, strings@[j]) =~= string_bytes(prior, strings@[j]));
                }
            }
            i += 1;
        }
        proof {
            assert forall|j: int| 0 <= j < strings@.len() implies valid_utf8(
                string_bytes(bytes@, #[trigger] strings@[j]),
            ) by {
                encode_utf8_valid_utf8(table@[symbols@[j].index() as int]);
            }
        }
        let program = UnloadedProgram {
            bytes,
            chunks: self.chunks,
            strings,
            consts: self.consts,
            functions: self.functions,
        };
        proof {
            assert(program@.chunks =~= before.chunks) by {
                assert forall|j: int| 0 <= j < program.chunks@.len() implies chunk_bytes(
                    program.bytes@,
                    #[trigger] program.chunks@[j],
                ) == chunk_bytes(code, program.chunks@[j]) by {
                    lemma_total_len_step(program.chunks@, j, program.chunks@.len() as int);
                    assert(chunk_bytes(program.bytes@, program.chunks@[j]) =~= chunk_bytes(
                        code,
                        program.chunks@[j],
                    ));
                }
            }
            assert(program@.symbols =~= before.symbols);
            assert(program@.functions =~= before.functions);
            assert(program@.strings =~= resolved(before.strings, table@)) by {
                assert forall|j: int| 0 <= j < strings@.len() implies program@.strings[j]
                    == table@[symbols@[j].index() as int] by {
                    encode_utf8_decode_utf8(table@[symbols@[j].index() as int]);
                }
            }
        }
        program
    }
}

} // verus!
