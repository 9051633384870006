//! The operations of strings.

use vstd::prelude::*;
use vstd::string::{StringExecFns, StrSliceExecFns};
use crate::runtime::errors::ExecResult;
use crate::runtime::strings::{
    distinct, intern_index, interned_with, text_of, StringTable, StringValue, SYMBOL_LIMIT,
};
use crate::runtime::variant::{TypeTag, Value, Variant};
use crate::utils::chars_of;

verus! {

/// Whether `a` comes before `b` in the order of strings: at the first place
/// where they differ `a` has the lesser character, or `a` ends there and `b`
/// goes on.
pub open spec fn text_lt(a: Seq<char>, b: Seq<char>) -> bool
    decreases a.len(),
{
    if b.len() == 0 {
        false
    } else if a.len() == 0 {
        true
    } else if a[0] != b[0] {
        (a[0] as u32) < (b[0] as u32)
    } else {
        text_lt(a.skip(1), b.skip(1))
    }
}

/// Whether `a` comes before `b` in the order of strings.
pub fn chars_lt(a: &Vec<char>, b: &Vec<char>) -> (res: bool)
    ensures
        res == text_lt(a@, b@),
{
    let mut i: usize = 0;
    assert(a@.skip(0) =~= a@);
    assert(b@.skip(0) =~= b@);
    while i < a.len() && i < b.len()
        invariant
            i <= a@.len(),
            i <= b@.len(),
            text_lt(a@, b@) == text_lt(a@.skip(i as int), b@.skip(i as int)),
        decreases a@.len() - i,
    {
        proof {
            assert(a@.skip(i as int)[0] == a@[i as int]);
            assert(b@.skip(i as int)[0] == b@[i as int]);
            assert(a@.skip(i as int).skip(1) =~= a@.skip(i + 1));
            assert(b@.skip(i as int).skip(1) =~= b@.skip(i + 1));
        }
        if a[i] != b[i] {
            return (a[i] as u32) < (b[i] as u32);
        }
        i += 1;
    }
    i < b.len()
}

impl Variant {
    /// The value as a string, if it is one.
    pub fn as_strval(&self) -> (value: Option<StringValue>)
        ensures
            value == match self {
                Variant::String(symbol) => Some(StringValue::Intern(*symbol)),
                _ => None,
            },
    {
        match self {
            Variant::String(symbol) => Some(StringValue::Intern(*symbol)),
            _ => None,
        }
    }
}

impl StringValue {
    pub fn type_tag(&self) -> (tag: TypeTag)
        ensures
            tag == TypeTag::String,
    {
        TypeTag::String
    }

    /// The number of characters of the string.
    pub fn char_len(&self, table: &StringTable) -> (len: usize)
        requires
            self.known(table@),
        ensures
            len == self.text(table@).len(),
    {
        match self {
            StringValue::Intern(symbol) => table.resolve(symbol).unicode_len(),
        }
    }

    pub fn len(&self, table: &StringTable) -> (len: Option<ExecResult<usize>>)
        requires
            self.known(table@),
        ensures
            len matches Some(Ok(count)) && count == self.text(table@).len(),
    {
        Some(Ok(self.char_len(table)))
    }

    /// The two strings one behind the other, as a string of `table`.
    pub fn concat(&self, other: &StringValue, table: &mut StringTable) -> (value: StringValue)
        requires
            self.known(old(table)@),
            other.known(old(table)@),
            old(table)@.len() < SYMBOL_LIMIT,
        ensures
            value.known(final(table)@),
            value.text(final(table)@) == self.text(old(table)@) + other.text(old(table)@),
            old(table)@.len() <= final(table)@.len(),
            final(table)@.take(old(table)@.len() as int) == old(table)@,
            final(table)@ == interned_with(
                old(table)@,
                self.text(old(table)@) + other.text(old(table)@),
            ),
            value.symbol().index() == intern_index(
                old(table)@,
                self.text(old(table)@) + other.text(old(table)@),
            ),
    {
        let mut text = String::from_str(table.resolve(&self.symbol_of()));
        text.append(table.resolve(&other.symbol_of()));
        let ghost before = table@;
        let symbol = table.get_or_intern(text.as_str());
        assert(table@.take(before.len() as int) =~= before);
        StringValue::Intern(symbol)
    }

    /// The symbol of the string.
    pub fn symbol_of(&self) -> (symbol: crate::runtime::strings::InternSymbol)
        ensures
            symbol == self.symbol(),
    {
        match self {
            StringValue::Intern(symbol) => *symbol,
        }
    }

    /// The string with `rhs` behind it, if `rhs` is a string.
    pub fn op_add(&self, rhs: &Variant, table: &mut StringTable) -> (res: Option<
        ExecResult<Variant>,
    >)
        requires
            self.known(old(table)@),
            rhs matches Variant::String(symbol) ==> symbol.index() < old(table)@.len(),
            old(table)@.len() < SYMBOL_LIMIT,
        ensures
            old(table)@.len() <= final(table)@.len(),
            final(table)@.take(old(table)@.len() as int) == old(table)@,
            match rhs {
                Variant::String(symbol) => res matches Some(Ok(Variant::String(sum)))
                    && sum.index() < final(table)@.len() && final(table)@[sum.index() as int]
                    == self.text(old(table)@) + old(table)@[symbol.index() as int],
                _ => res.is_none() && final(table)@ == old(table)@,
            },
    {
        if let Some(rhs) = rhs.as_strval() {
            let sum = self.concat(&rhs, table);
            return Some(Ok(Variant::String(sum.symbol_of())));
        }
        assert(table@.take(table@.len() as int) =~= table@);
        None
    }

    /// The string behind `lhs`, if `lhs` is a string.
    pub fn op_radd(&self, lhs: &Variant, table: &mut StringTable) -> (res: Option<
        ExecResult<Variant>,
    >)
        requires
            self.known(old(table)@),
            lhs matches Variant::String(symbol) ==> symbol.index() < old(table)@.len(),
            old(table)@.len() < SYMBOL_LIMIT,
        ensures
            old(table)@.len() <= final(table)@.len(),
            final(table)@.take(old(table)@.len() as int) == old(table)@,
            match lhs {
                Variant::String(symbol) => res matches Some(Ok(Variant::String(sum)))
                    && sum.index() < final(table)@.len() && final(table)@[sum.index() as int]
                    == old(table)@[symbol.index() as int] + self.text(old(table)@),
                _ => res.is_none() && final(table)@ == old(table)@,
            },
    {
        if let Some(lhs) = lhs.as_strval() {
            let sum = lhs.concat(self, table);
            return Some(Ok(Variant::String(sum.symbol_of())));
        }
        assert(table@.take(table@.len() as int) =~= table@);
        None
    }

    /// Whether `other` is the same string, if it is a string. Two strings of
    /// one table are the same if their symbols are.
    pub fn cmp_eq(&self, other: &Variant) -> (res: Option<ExecResult<bool>>)
        ensures
            match other {
                Variant::String(symbol) => res matches Some(Ok(same)) && same == (self.symbol()
                    == *symbol),
                _ => res.is_none(),
            },
    {
        if let Some(other) = other.as_strval() {
            return Some(Ok(self.symbol_of() == other.symbol_of()));
        }
        None
    }

    /// Whether the string comes before `other`, if `other` is a string.
    pub fn cmp_lt(&self, other: &Variant, table: &StringTable) -> (res: Option<ExecResult<bool>>)
        requires
            self.known(table@),
            other matches Variant::String(symbol) ==> symbol.index() < table@.len(),
        ensures
            match other {
                Variant::String(symbol) => res matches Some(Ok(less)) && less == text_lt(
                    self.text(table@),
                    text_of(table@, *symbol),
                ),
                _ => res.is_none(),
            },
    {
        if let Some(other) = other.as_strval() {
            let a = chars_of(table.resolve(&self.symbol_of()));
            let b = chars_of(table.resolve(&other.symbol_of()));
            return Some(Ok(chars_lt(&a, &b)));
        }
        None
    }

    /// Whether the string is `other` or comes before it, if `other` is a
    /// string.
    pub fn cmp_le(&self, other: &Variant, table: &StringTable) -> (res: Option<ExecResult<bool>>)
        requires
            self.known(table@),
            other matches Variant::String(symbol) ==> symbol.index() < table@.len(),
        ensures
            match other {
                Variant::String(symbol) => res matches Some(Ok(less)) && less == (self.symbol()
                    == *symbol || text_lt(self.text(table@), text_of(table@, *symbol))),
                _ => res.is_none(),
            },
    {
        if let Some(other) = other.as_strval() {
            if self.symbol_of() == other.symbol_of() {
                return Some(Ok(true));
            }
            let a = chars_of(table.resolve(&self.symbol_of()));
            let b = chars_of(table.resolve(&other.symbol_of()));
            return Some(Ok(chars_lt(&a, &b)));
        }
        None
    }
}

/// In a table that holds no string twice, two symbols are one if and only if
/// their strings are.
pub proof fn lemma_same_symbol_same_text(
    table: Seq<Seq<char>>,
    a: StringValue,
    b: StringValue,
)
    requires
        distinct(table),
        a.known(table),
        b.known(table),
    ensures
        a.symbol().index() == b.symbol().index() <==> a.text(table) == b.text(table),
{
}

} // verus!
