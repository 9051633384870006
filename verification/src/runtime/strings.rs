//! Interned strings: each distinct string is stored once and stands for a
//! small number, its symbol.

use vstd::pervasive::unreached;
use vstd::prelude::*;
use string_interner::backend::StringBackend;
use string_interner::symbol::SymbolU32;
use string_interner::DefaultHashBuilder;
use string_interner::Symbol;
use std::hash::BuildHasher;
use vstd::std_specs::cmp::PartialEqSpecImpl;
use vstd::string::StringExecFns;

verus! {

/// The number of distinct strings that one interner can hold.
pub const SYMBOL_LIMIT: usize = 0xFFFF_FFFF;

/// The interner of the `string_interner` crate that this library uses: all
/// strings in one buffer, symbols of 32 bits. Nothing is known of it but what
/// the functions below say.
#[verifier::external_body]
pub struct Backing {
    inner: string_interner::StringInterner<StringBackend<SymbolU32>, DefaultHashBuilder>,
}

/// The strings that `interner` holds, each at the position that its symbol
/// stands for.
pub uninterp spec fn interned(interner: Backing) -> Seq<Seq<char>>;

/// Calls `StringInterner::new`: an interner that holds nothing.
#[verifier::external_body]
fn backing_new() -> (interner: Backing)
    ensures
        interned(interner) == Seq::<Seq<char>>::empty(),
{
    Backing { inner: string_interner::StringInterner::new() }
}

/// Calls `StringInterner::len`: the number of strings held.
#[verifier::external_body]
fn backing_len(interner: &Backing) -> (len: usize)
    ensures
        len == interned(*interner).len(),
{
    interner.inner.len()
}

/// Calls `StringInterner::get_or_intern` and `Symbol::to_usize` on its
/// result. A string that is held already keeps its position and nothing
/// changes; a new one is added behind the others. The crate panics when asked
/// for more symbols than 32 bits can tell apart, so the call is made only
/// below that number.
#[verifier::external_body]
fn backing_get_or_intern(interner: &mut Backing, string: &str) -> (index: usize)
    requires
        interned(*old(interner)).len() < SYMBOL_LIMIT,
    ensures
        index < interned(*final(interner)).len(),
        interned(*final(interner))[index as int] == string@,
        interned(*old(interner)).contains(string@) ==> interned(*final(interner)) == interned(
            *old(interner),
        ),
        !interned(*old(interner)).contains(string@) ==> interned(*final(interner)) == interned(
            *old(interner),
        ).push(string@),
{
    interner.inner.get_or_intern(string).to_usize()
}

/// Calls `Symbol::try_from_usize` and `StringInterner::resolve`: the string
/// at position `index`, if one is held there.
#[verifier::external_body]
fn backing_resolve(interner: &Backing, index: u32) -> (string: Option<&str>)
    ensures
        index < interned(*interner).len() ==> string.is_some() && string.unwrap()@ == interned(*interner)[index as int],
        index >= interned(*interner).len() ==> string.is_none(),
{
    match SymbolU32::try_from_usize(index as usize) {
        Some(symbol) => interner.inner.resolve(symbol),
        None => None,
    }
}

/// Calls `StringInterner::get` and `Symbol::to_usize` on its result: the
/// position of `string`, if it is held. Nothing changes.
#[verifier::external_body]
fn backing_get(interner: &Backing, string: &str) -> (index: Option<usize>)
    ensures
        index.is_some() <==> interned(*interner).contains(string@),
        index.is_some() ==> index.unwrap() < interned(*interner).len() && interned(*interner)[index.unwrap() as int] == string@,
{
    interner.inner.get(string).map(|symbol| symbol.to_usize())
}

/// Calls `BuildHasher::hash_one` on the text: its hash with a hasher that
/// `hasher` builds. What comes out depends on how `hasher` was seeded.
#[verifier::external_body]
fn hash_text<H: BuildHasher>(hasher: &H, text: &str) -> (hash: u64) {
    hasher.hash_one(text)
}

/// A handle on an interned string: its position in the interner that made it.
#[derive(Debug, Clone, Copy, PartialEq, Eq, Hash, Structural)]
pub struct InternSymbol {
    index: u32,
}

impl InternSymbol {
    /// The position that the symbol stands for.
    pub closed spec fn index(self) -> nat {
        self.index as nat
    }

    pub fn to_usize(&self) -> (index: usize)
        ensures
            index == self.index(),
    {
        self.index as usize
    }

    /// The symbol of the string at position `index`.
    pub closed spec fn spec_at(index: nat) -> InternSymbol {
        InternSymbol { index: index as u32 }
    }

    /// A symbol is the symbol of its position, and the other way round.
    pub proof fn lemma_at(self)
        ensures
            InternSymbol::spec_at(self.index()) == self,
            forall|index: nat|
                index <= u32::MAX ==> (#[trigger] InternSymbol::spec_at(index)).index() == index,
    {
    }

    /// The symbol of the first string of an interner.
    pub closed spec fn spec_first() -> InternSymbol {
        InternSymbol { index: 0 }
    }

    #[verifier::when_used_as_spec(spec_first)]
    pub fn first() -> (symbol: InternSymbol)
        ensures
            symbol == InternSymbol::spec_first(),
            symbol.index() == 0,
    {
        InternSymbol { index: 0 }
    }

    /// A symbol is a number of 32 bits.
    pub proof fn lemma_index_bound(self)
        ensures
            self.index() <= u32::MAX,
    {
    }

    /// The symbol of the string at `index`, where an interner can hold that many.
    pub fn try_from_usize(index: usize) -> (symbol: Option<InternSymbol>)
        ensures
            index < SYMBOL_LIMIT ==> symbol.is_some() && symbol.unwrap().index() == index,
            index >= SYMBOL_LIMIT ==> symbol.is_none(),
    {
        if index < SYMBOL_LIMIT {
            Some(InternSymbol { index: index as u32 })
        } else {
            None
        }
    }
}

/// The string of `table` that `symbol` stands for.
pub open spec fn text_of(table: Seq<Seq<char>>, symbol: InternSymbol) -> Seq<char> {
    table[symbol.index() as int]
}

/// The position of `text` among `strings` once it is interned: where it
/// stands, or behind the others.
pub open spec fn intern_index(strings: Seq<Seq<char>>, text: Seq<char>) -> nat {
    if strings.contains(text) {
        strings.index_of(text) as nat
    } else {
        strings.len()
    }
}

/// The strings `strings` once `text` is interned.
pub open spec fn interned_with(strings: Seq<Seq<char>>, text: Seq<char>) -> Seq<Seq<char>> {
    if strings.contains(text) {
        strings
    } else {
        strings.push(text)
    }
}

/// Whether no string occurs twice in `strings`.
pub open spec fn distinct(strings: Seq<Seq<char>>) -> bool {
    forall|i: int, j: int|
        0 <= i < strings.len() && 0 <= j < strings.len() && #[trigger] strings[i]
            == #[trigger] strings[j] ==> i == j
}

/// A set of strings, each held once. A string's symbol is its position among
/// them, counted from 0 in the order in which they came.
pub struct Interner {
    backing: Backing,
}

impl View for Interner {
    type V = Seq<Seq<char>>;

    closed spec fn view(&self) -> Seq<Seq<char>> {
        interned(self.backing)
    }
}

impl Interner {
    #[verifier::type_invariant]
    spec fn type_inv(&self) -> bool {
        &&& distinct(interned(self.backing))
        &&& interned(self.backing).len() <= SYMBOL_LIMIT
    }

    pub fn new() -> (interner: Interner)
        ensures
            interner@ == Seq::<Seq<char>>::empty(),
    {
        Interner { backing: backing_new() }
    }

    /// The number of strings held. No string is held twice.
    pub fn len(&self) -> (len: usize)
        ensures
            len == self@.len(),
            len <= SYMBOL_LIMIT,
            distinct(self@),
    {
        proof {
            use_type_invariant(self);
        }
        backing_len(&self.backing)
    }

    /// The symbol of `string`, which is added if it is not held yet.
    pub fn get_or_intern(&mut self, string: &str) -> (symbol: InternSymbol)
        requires
            old(self)@.len() < SYMBOL_LIMIT,
        ensures
            symbol.index() < final(self)@.len(),
            final(self)@[symbol.index() as int] == string@,
            old(self)@.contains(string@) ==> final(self)@ == old(self)@,
            !old(self)@.contains(string@) ==> final(self)@ == old(self)@.push(string@)
                && symbol.index() == old(self)@.len(),
            final(self)@ == interned_with(old(self)@, string@),
            symbol.index() == intern_index(old(self)@, string@),
    {
        proof {
            use_type_invariant(&*self);
        }
        let ghost before = self@;
        let mut backing = backing_new();
        core::mem::swap(&mut self.backing, &mut backing);
        let index = backing_get_or_intern(&mut backing, string);
        proof {
            let after = interned(backing);
            if !before.contains(string@) {
                assert(after == before.push(string@));
                if index < before.len() {
                    assert(before[index as int] == string@);
                }
                assert forall|i: int, j: int|
                    0 <= i < after.len() && 0 <= j < after.len() && #[trigger] after[i]
                        == #[trigger] after[j] implies i == j by {
                    if i < before.len() {
                        assert(before[i] == after[i]);
                    }
                    if j < before.len() {
                        assert(before[j] == after[j]);
                    }
                }
            }
        }
        self.backing = backing;
        proof {
            if before.contains(string@) {
                let at = before.index_of(string@);
                assert(0 <= at < before.len() && before[at] == string@);
                assert(before[index as int] == string@);
            }
        }
        InternSymbol { index: index as u32 }
    }

    /// The symbol of `string`, unless it is new and the interner is full.
    pub fn try_get_or_intern(&mut self, string: &str) -> (symbol: Option<InternSymbol>)
        ensures
            old(self)@.len() >= SYMBOL_LIMIT ==> symbol.is_none() && final(self)@ == old(self)@,
            old(self)@.len() < SYMBOL_LIMIT ==> symbol.is_some() && symbol.unwrap().index() < final(self)@.len() && final(self)@[symbol.unwrap().index() as int] == string@,
            old(self)@.len() < SYMBOL_LIMIT && old(self)@.contains(string@) ==> final(self)@ == old(self)@,
            old(self)@.len() < SYMBOL_LIMIT && !old(self)@.contains(string@) ==> final(self)@
                == old(self)@.push(string@),
    {
        if self.len() < SYMBOL_LIMIT {
            Some(self.get_or_intern(string))
        } else {
            None
        }
    }

    /// The symbol of `string`, if it is held.
    pub fn get(&self, string: &str) -> (symbol: Option<InternSymbol>)
        ensures
            symbol.is_some() <==> self@.contains(string@),
            symbol.is_some() ==> symbol.unwrap().index() < self@.len() && self@[symbol.unwrap().index() as int]
                == string@,
    {
        proof {
            use_type_invariant(self);
        }
        match backing_get(&self.backing, string) {
            Some(index) => Some(InternSymbol { index: index as u32 }),
            None => None,
        }
    }

    /// The string that `symbol` stands for, if this interner holds one there.
    pub fn resolve(&self, symbol: InternSymbol) -> (string: Option<&str>)
        ensures
            symbol.index() < self@.len() ==> string.is_some() && string.unwrap()@
                == self@[symbol.index() as int],
            symbol.index() >= self@.len() ==> string.is_none(),
    {
        backing_resolve(&self.backing, symbol.index)
    }
}

} // verus!

verus! {

/// The string table of the process: the strings of every loaded program.
/// It only grows.
pub struct StringTable {
    interner: Interner,
}

impl View for StringTable {
    type V = Seq<Seq<char>>;

    closed spec fn view(&self) -> Seq<Seq<char>> {
        self.interner@
    }
}

impl StringTable {
    pub fn new() -> (table: StringTable)
        ensures
            table@ == Seq::<Seq<char>>::empty(),
    {
        StringTable { interner: Interner::new() }
    }

    /// The number of strings in the table. No string is held twice.
    pub fn len(&self) -> (len: usize)
        ensures
            len == self@.len(),
            len <= SYMBOL_LIMIT,
            distinct(self@),
    {
        self.interner.len()
    }

    /// The symbol of `string`, which is added if the table does not hold it.
    pub fn get_or_intern(&mut self, string: &str) -> (symbol: InternSymbol)
        requires
            old(self)@.len() < SYMBOL_LIMIT,
        ensures
            symbol.index() < final(self)@.len(),
            final(self)@[symbol.index() as int] == string@,
            old(self)@.contains(string@) ==> final(self)@ == old(self)@,
            !old(self)@.contains(string@) ==> final(self)@ == old(self)@.push(string@)
                && symbol.index() == old(self)@.len(),
            final(self)@ == interned_with(old(self)@, string@),
            symbol.index() == intern_index(old(self)@, string@),
    {
        self.interner.get_or_intern(string)
    }

    /// The symbol of `string`, if the table holds it.
    pub fn get(&self, string: &str) -> (symbol: Option<InternSymbol>)
        ensures
            symbol.is_some() <==> self@.contains(string@),
            symbol.is_some() ==> symbol.unwrap().index() < self@.len() && self@[symbol.unwrap().index() as int]
                == string@,
    {
        self.interner.get(string)
    }

    /// The string that `symbol` stands for.
    pub fn resolve(&self, symbol: &InternSymbol) -> (string: &str)
        requires
            symbol.index() < self@.len(),
        ensures
            string@ == self@[symbol.index() as int],
    {
        match self.interner.resolve(*symbol) {
            Some(string) => string,
            None => unreached(),
        }
    }

    /// The interner behind the table, to intern many strings in a row.
    pub fn borrow_interner_mut(&mut self) -> (interner: &mut Interner)
        ensures
            interner@ == old(self)@,
            final(self)@ == final(interner)@,
    {
        &mut self.interner
    }
}

/// A string value, in one of the forms that strings are held in.
#[derive(Debug, Clone, Copy, PartialEq, Eq, Structural)]
pub enum StringValue {
    Intern(InternSymbol),
}

impl From<InternSymbol> for StringValue {
    fn from(symbol: InternSymbol) -> (value: StringValue) {
        StringValue::Intern(symbol)
    }
}

impl vstd::std_specs::convert::FromSpecImpl<InternSymbol> for StringValue {
    open spec fn obeys_from_spec() -> bool {
        true
    }

    open spec fn from_spec(symbol: InternSymbol) -> StringValue {
        StringValue::Intern(symbol)
    }
}

impl StringValue {
    /// The symbol of the string.
    pub open spec fn symbol(&self) -> InternSymbol {
        match self {
            StringValue::Intern(symbol) => *symbol,
        }
    }

    /// Whether the string is a string of `table`.
    pub open spec fn known(&self, table: Seq<Seq<char>>) -> bool {
        self.symbol().index() < table.len()
    }

    /// The characters of the string.
    pub open spec fn text(&self, table: Seq<Seq<char>>) -> Seq<char> {
        table[self.symbol().index() as int]
    }

    /// Whether the two are one string, where that can be told without the
    /// string table: two interned strings are one if their symbols are.
    pub fn try_eq(&self, other: &StringValue) -> (res: Option<bool>)
        ensures
            res == Some(self.symbol() == other.symbol()),
    {
        match (self, other) {
            (StringValue::Intern(self_sym), StringValue::Intern(other_sym)) => Some(
                *self_sym == *other_sym,
            ),
        }
    }

    /// Writes the string behind `buf`.
    pub fn write_str(&self, buf: &mut String, table: &StringTable)
        requires
            self.known(table@),
        ensures
            final(buf)@ == old(buf)@ + self.text(table@),
    {
        match self {
            StringValue::Intern(symbol) => {
                buf.append(table.resolve(symbol));
            },
        }
    }
}

/// A string as the key of a map: its symbol, with the hash of its text.
#[derive(Debug, Clone, Copy, Hash)]
pub enum StringKey {
    Intern { hash: u64, sym: InternSymbol },
}

impl PartialEq for StringKey {
    fn eq(&self, other: &StringKey) -> (res: bool) {
        match (self, other) {
            (StringKey::Intern { sym: self_sym, .. }, StringKey::Intern { sym: other_sym, .. }) => {
                *self_sym == *other_sym
            },
        }
    }
}

impl PartialEqSpecImpl for StringKey {
    open spec fn obeys_eq_spec() -> bool {
        true
    }

    open spec fn eq_spec(&self, other: &StringKey) -> bool {
        self->sym == other->sym
    }
}

impl Eq for StringKey {

}

impl StringKey {
    /// The key of the string `value`.
    pub fn new<H: BuildHasher>(value: StringValue, table: &StringTable, hasher: &H) -> (key:
        StringKey)
        requires
            value.known(table@),
        ensures
            key->sym == value.symbol(),
    {
        match value {
            StringValue::Intern(sym) => Self::from_intern(sym, table, hasher),
        }
    }

    /// The key of the string that `sym` stands for: its text is hashed with
    /// a hasher that `hasher` builds.
    pub fn from_intern<H: BuildHasher>(sym: InternSymbol, table: &StringTable, hasher: &H) -> (key:
        StringKey)
        requires
            sym.index() < table@.len(),
        ensures
            key->sym == sym,
    {
        let string = table.resolve(&sym);
        let hash = hash_text(hasher, string);
        StringKey::Intern { hash, sym }
    }

    /// The string of the key.
    pub fn value(&self) -> (value: StringValue)
        ensures
            value == StringValue::Intern(self->sym),
    {
        match self {
            StringKey::Intern { sym, .. } => StringValue::Intern(*sym),
        }
    }

    /// Writes the string of the key behind `buf`.
    pub fn write_str(&self, buf: &mut String, table: &StringTable)
        requires
            self->sym.index() < table@.len(),
        ensures
            final(buf)@ == old(buf)@ + table@[self->sym.index() as int],
    {
        match self {
            StringKey::Intern { sym, .. } => {
                buf.append(table.resolve(sym));
            },
        }
    }
}

} // verus!
