//! The values of the language.

use vstd::prelude::*;
use vstd::std_specs::cmp::PartialEqSpecImpl;
use vstd::std_specs::convert::FromSpecImpl;
use crate::language::{FloatBytes, IntType};
use crate::runtime::errors::{ErrorKind, ExecResult, RuntimeError};
use crate::runtime::echo::{glyphs, lemma_glyphs_concat, Glyph, Rendering};
use crate::runtime::strings::{InternSymbol, StringTable, SYMBOL_LIMIT};
use crate::runtime::types::Metatable;
use crate::utils::{signed_decimal, write_signed_decimal};

verus! {

/// The symbol of a string in the string table of the process.
pub type StringSymbol = InternSymbol;

/// The type of a value.
#[derive(Debug, Clone, Copy, PartialEq, Eq, Hash, Structural)]
pub enum TypeTag {
    Nil,
    Tuple,
    Bool,
    Integer,
    Float,
    String,
    Object,
}

/// A value of the language.
#[derive(Debug)]
pub enum Variant {
    Nil,
    /// The empty tuple.
    EmptyTuple,
    BoolTrue,
    BoolFalse,
    Integer(IntType),
    /// A float, as its little-endian bytes.
    Float(FloatBytes),
    String(StringSymbol),
    /// A tuple with at least one item.
    Tuple(Vec<Variant>),
}

/// What a value is: the same cases, a tuple as the sequence of its items.
pub ghost enum Value {
    Nil,
    EmptyTuple,
    BoolTrue,
    BoolFalse,
    Integer(IntType),
    Float(Seq<u8>),
    String(StringSymbol),
    Tuple(Seq<Value>),
}

impl View for Variant {
    type V = Value;

    open spec fn view(&self) -> Value {
        self.value()
    }
}

impl Value {
    /// The type of the value.
    pub open spec fn tag(self) -> TypeTag {
        match self {
            Value::Nil => TypeTag::Nil,
            Value::BoolTrue | Value::BoolFalse => TypeTag::Bool,
            Value::Integer(..) => TypeTag::Integer,
            Value::Float(..) => TypeTag::Float,
            Value::String(..) => TypeTag::String,
            Value::EmptyTuple | Value::Tuple(..) => TypeTag::Tuple,
        }
    }

    /// Whether the value counts as true.
    pub open spec fn truth(self) -> bool {
        !(self is Nil || self is BoolFalse)
    }

    /// The value as a field of bits, if it has one.
    pub open spec fn bits(self) -> Option<IntType> {
        match self {
            Value::Integer(value) => Some(value),
            Value::BoolFalse => Some(0i64),
            Value::BoolTrue => Some((-1i64) as i64),
            _ => None,
        }
    }

    /// Whether the value is a float or holds one.
    pub open spec fn holds_float(self) -> bool
        decreases self,
    {
        match self {
            Value::Float(..) => true,
            Value::Tuple(items) => any_float(items),
            _ => false,
        }
    }
}

/// Whether one of `items` is a float or holds one.
pub open spec fn any_float(items: Seq<Value>) -> bool
    decreases items,
{
    if items.len() == 0 {
        false
    } else {
        any_float(items.drop_last()) || items.last().holds_float()
    }
}

/// `any_float` looks at every item.
pub proof fn lemma_any_float(items: Seq<Value>)
    ensures
        any_float(items) <==> exists|i: int|
            0 <= i < items.len() && (#[trigger] items[i]).holds_float(),
    decreases items.len(),
{
    if items.len() > 0 {
        lemma_any_float(items.drop_last());
        if any_float(items.drop_last()) {
            let i = choose|i: int|
                0 <= i < items.drop_last().len() && (#[trigger] items.drop_last()[i]).holds_float();
            assert(items[i].holds_float());
        }
        if exists|i: int| 0 <= i < items.len() && (#[trigger] items[i]).holds_float() {
            let i = choose|i: int| 0 <= i < items.len() && (#[trigger] items[i]).holds_float();
            if i < items.len() - 1 {
                assert(items.drop_last()[i].holds_float());
            }
        }
    }
}

/// What the values of `items` are, one by one.
pub open spec fn views(items: Seq<Variant>) -> Seq<Value>
    decreases items,
{
    if items.len() == 0 {
        Seq::empty()
    } else {
        views(items.drop_last()).push(items.last().value())
    }
}

/// The values of the first items are the first of the values, and an item
/// more is a value more.
pub proof fn lemma_views_take(items: Seq<Variant>, count: int)
    requires
        0 <= count <= items.len(),
    ensures
        views(items.take(count)) == views(items).take(count),
        forall|item: Variant| #[trigger] views(items.push(item)) == views(items).push(item.value()),
{
    lemma_views(items);
    lemma_views(items.take(count));
    assert(views(items.take(count)) =~= views(items).take(count));
    assert forall|item: Variant| #[trigger] views(items.push(item)) == views(items).push(
        item.value(),
    ) by {
        assert(items.push(item).drop_last() =~= items);
    }
}

/// `views` keeps the length and goes item by item.
pub proof fn lemma_views(items: Seq<Variant>)
    ensures
        views(items).len() == items.len(),
        forall|i: int| 0 <= i < items.len() ==> (#[trigger] views(items)[i]) == items[i]@,
    decreases items.len(),
{
    if items.len() > 0 {
        lemma_views(items.drop_last());
    }
}

impl Clone for Variant {
    fn clone(&self) -> (copy: Variant)
        ensures
            copy@ == self@,
    {
        self.duplicate()
    }
}

impl Variant {
    /// What the value is.
    pub open spec fn value(&self) -> Value
        decreases self,
    {
        match self {
            Variant::Nil => Value::Nil,
            Variant::EmptyTuple => Value::EmptyTuple,
            Variant::BoolTrue => Value::BoolTrue,
            Variant::BoolFalse => Value::BoolFalse,
            Variant::Integer(value) => Value::Integer(*value),
            Variant::Float(bytes) => Value::Float(bytes@),
            Variant::String(symbol) => Value::String(*symbol),
            Variant::Tuple(items) => Value::Tuple(views(items@)),
        }
    }

    /// A copy of the value, made item by item.
    pub fn duplicate(&self) -> (copy: Variant)
        ensures
            copy@ == self@,
        decreases self,
    {
        match self {
            Variant::Nil => Variant::Nil,
            Variant::EmptyTuple => Variant::EmptyTuple,
            Variant::BoolTrue => Variant::BoolTrue,
            Variant::BoolFalse => Variant::BoolFalse,
            Variant::Integer(value) => Variant::Integer(*value),
            Variant::Float(bytes) => Variant::Float(*bytes),
            Variant::String(symbol) => Variant::String(*symbol),
            Variant::Tuple(items) => {
                let mut copies: Vec<Variant> = Vec::new();
                let mut i: usize = 0;
                while i < items.len()
                    invariant
                        i <= items@.len(),
                        self == Variant::Tuple(*items),
                        copies@.len() == i,
                        forall|j: int| 0 <= j < i ==> (#[trigger] copies@[j])@ == items@[j]@,
                    decreases items@.len() - i,
                {
                    proof {
                        assert(self is Tuple);
                        assert(self->Tuple_0 == *items);
                        assert(decreases_to!(self => self->Tuple_0));
                        assert(decreases_to!(*items => items[i as int]));
                        assert(decreases_to!(self => items[i as int]));
                    }
                    let item = &items[i];
                    assert(decreases_to!(self => item));
                    copies.push(item.duplicate());
                    i += 1;
                }
                let copy = Variant::Tuple(copies);
                proof {
                    lemma_views(copies@);
                    lemma_views(items@);
                    assert(views(copies@) =~= views(items@));
                }
                copy
            },
        }
    }

    pub open spec fn spec_type_tag(&self) -> TypeTag {
        match self {
            Variant::Nil => TypeTag::Nil,
            Variant::BoolTrue | Variant::BoolFalse => TypeTag::Bool,
            Variant::Integer(..) => TypeTag::Integer,
            Variant::Float(..) => TypeTag::Float,
            Variant::String(..) => TypeTag::String,
            Variant::EmptyTuple | Variant::Tuple(..) => TypeTag::Tuple,
        }
    }

    #[verifier::when_used_as_spec(spec_type_tag)]
    pub fn type_tag(&self) -> (tag: TypeTag)
        ensures
            tag == self.spec_type_tag(),
    {
        match self {
            Variant::Nil => TypeTag::Nil,
            Variant::BoolTrue | Variant::BoolFalse => TypeTag::Bool,
            Variant::Integer(..) => TypeTag::Integer,
            Variant::Float(..) => TypeTag::Float,
            Variant::String(..) => TypeTag::String,
            Variant::EmptyTuple | Variant::Tuple(..) => TypeTag::Tuple,
        }
    }

    /// The table of operations that the value goes by.
    pub fn metatable(&self) -> (table: Metatable)
        ensures
            table == if self is String {
                Metatable::String
            } else {
                Metatable::Default
            },
    {
        match self {
            Variant::String(..) => Metatable::String,
            _ => Metatable::Default,
        }
    }

    /// The value as a field of bits: an integer as it is, `false` as all
    /// zeros, `true` as all ones. Other values have none.
    pub open spec fn spec_bit_value(&self) -> Option<IntType> {
        match self {
            Variant::Integer(value) => Some(*value),
            Variant::BoolFalse => Some(0i64),
            Variant::BoolTrue => Some((-1i64) as i64),
            _ => None,
        }
    }

    #[verifier::when_used_as_spec(spec_bit_value)]
    pub fn bit_value(&self) -> (bits: Option<IntType>)
        ensures
            bits == self.spec_bit_value(),
    {
        match self {
            Variant::Integer(value) => Some(*value),
            Variant::BoolFalse => Some(0),
            Variant::BoolTrue => Some(-1),
            _ => None,
        }
    }

    /// The tuple of `items`.
    pub fn make_tuple(items: Vec<Variant>) -> (tuple: Variant)
        ensures
            tuple@ == Value::Tuple(views(items@)),
    {
        Variant::Tuple(items)
    }

    /// Whether the value counts as true: every value but `nil` and `false`
    /// does.
    pub open spec fn spec_truth_value(&self) -> bool {
        !(self is Nil || self is BoolFalse)
    }

    #[verifier::when_used_as_spec(spec_truth_value)]
    pub fn truth_value(&self) -> (truth: bool)
        ensures
            truth == self.spec_truth_value(),
    {
        !matches!(self, Variant::Nil | Variant::BoolFalse)
    }

    /// Whether the value can be the key of a map: a float cannot, nor a
    /// tuple that holds a value that cannot.
    pub open spec fn hashable(&self) -> bool
        decreases self,
    {
        match self {
            Variant::Float(..) => false,
            Variant::Tuple(items) => forall|i: int|
                0 <= i < items@.len() ==> (#[trigger] items@[i]).hashable(),
            _ => true,
        }
    }

    pub fn can_hash(&self) -> (res: bool)
        ensures
            res == self.hashable(),
        decreases self,
    {
        match self {
            Variant::Float(..) => false,
            Variant::Tuple(items) => {
                let mut i: usize = 0;
                while i < items.len()
                    invariant
                        i <= items@.len(),
                        self == Variant::Tuple(*items),
                        forall|j: int| 0 <= j < i ==> (#[trigger] items@[j]).hashable(),
                    decreases items@.len() - i,
                {
                    proof {
                        assert(self is Tuple);
                        assert(self->Tuple_0 == *items);
                        assert(decreases_to!(self => self->Tuple_0));
                        assert(decreases_to!(*items => items[i as int]));
                    }
                    if !items[i].can_hash() {
                        return false;
                    }
                    i += 1;
                }
                true
            },
            _ => true,
        }
    }
}

/// Whether every string of `value` is a string of `table`.
pub open spec fn known(value: Value, table: Seq<Seq<char>>) -> bool
    decreases value,
{
    match value {
        Value::String(symbol) => symbol.index() < table.len(),
        Value::Tuple(items) => forall|i: int|
            0 <= i < items.len() ==> known(#[trigger] items[i], table),
        _ => true,
    }
}

/// The place that holds a float.
pub open spec fn float_glyph(bytes: Seq<u8>) -> Glyph {
    Glyph::Float(bytes)
}

/// How `value` is shown. A string is shown between quotes if `quoted`; a
/// float is left to be formatted; the items of a tuple stand in parentheses
/// with `, ` between them.
pub open spec fn show(value: Value, table: Seq<Seq<char>>, quoted: bool) -> Seq<Glyph>
    decreases value,
{
    match value {
        Value::Nil => glyphs("nil"@),
        Value::EmptyTuple => glyphs("()"@),
        Value::BoolTrue => glyphs("true"@),
        Value::BoolFalse => glyphs("false"@),
        Value::Integer(i) => glyphs(signed_decimal(i as int)),
        Value::Float(bytes) => seq![float_glyph(bytes)],
        Value::String(symbol) => if quoted {
            glyphs("\""@) + glyphs(table[symbol.index() as int]) + glyphs("\""@)
        } else {
            glyphs(table[symbol.index() as int])
        },
        Value::Tuple(items) => glyphs("("@) + show_items(items, table, quoted) + glyphs(")"@),
    }
}

/// How `items` are shown: one after the other, with `, ` between them.
pub open spec fn show_items(items: Seq<Value>, table: Seq<Seq<char>>, quoted: bool) -> Seq<Glyph>
    decreases items,
{
    if items.len() == 0 {
        Seq::empty()
    } else if items.len() == 1 {
        show(items[0], table, quoted)
    } else {
        show_items(items.drop_last(), table, quoted) + glyphs(", "@) + show(
            items.last(),
            table,
            quoted,
        )
    }
}

impl Variant {
    /// Writes the value behind `out`, as `show` says.
    pub fn write(&self, table: &StringTable, quoted: bool, out: &mut Rendering)
        requires
            known(self@, table@),
        ensures
            final(out)@ == old(out)@ + show(self@, table@, quoted),
        decreases self,
    {
        match self {
            Variant::Nil => out.push_str("nil"),
            Variant::EmptyTuple => out.push_str("()"),
            Variant::BoolTrue => out.push_str("true"),
            Variant::BoolFalse => out.push_str("false"),
            Variant::Integer(value) => {
                let mut text = String::new();
                write_signed_decimal(*value, &mut text);
                assert(text@ =~= signed_decimal(*value as int));
                out.push_str(text.as_str());
            },
            Variant::Float(bytes) => {
                out.push_float(*bytes);
                assert(out@ =~= old(out)@ + show(self@, table@, quoted));
            },
            Variant::String(symbol) => {
                if quoted {
                    out.push_str("\"");
                    out.push_str(table.resolve(symbol));
                    out.push_str("\"");
                    assert(out@ =~= old(out)@ + show(self@, table@, quoted));
                } else {
                    out.push_str(table.resolve(symbol));
                }
            },
            Variant::Tuple(items) => {
                out.push_str("(");
                let ghost all = views(items@);
                proof {
                    lemma_views(items@);
                    assert(self@ == Value::Tuple(all));
                    assert(known(Value::Tuple(all), table@));
                    assert forall|j: int| 0 <= j < all.len() implies known(
                        #[trigger] all[j],
                        table@,
                    ) by {
                        let t = Value::Tuple(all);
                        assert(t->Tuple_0[j] == all[j]);
                        assert(known(t->Tuple_0[j], table@));
                    }
                }
                let mut i: usize = 0;
                while i < items.len()
                    invariant
                        i <= items@.len(),
                        self is Tuple,
                        self->Tuple_0 == *items,
                        all == views(items@),
                        all.len() == items@.len(),
                        forall|j: int| 0 <= j < items@.len() ==> (#[trigger] all[j]) == items@[j]@,
                        forall|j: int| 0 <= j < all.len() ==> known(#[trigger] all[j], table@),
                        out@ == old(out)@ + glyphs("("@) + show_items(
                            all.take(i as int),
                            table@,
                            quoted,
                        ),
                    decreases items@.len() - i,
                {
                    proof {
                        assert(decreases_to!(self => self->Tuple_0));
                        assert(decreases_to!(*items => items[i as int]));
                        assert(all.take(i + 1).drop_last() =~= all.take(i as int));
                        assert(all.take(i + 1).last() == all[i as int]);
                    }
                    if i > 0 {
                        out.push_str(", ");
                    }
                    items[i].write(table, quoted, out);
                    proof {
                        if i == 0 {
                            assert(all.take(1)[0] == all[0]);
                            assert(show_items(all.take(0), table@, quoted) =~= Seq::<Glyph>::empty());
                        }
                        assert(out@ =~= old(out)@ + glyphs("("@) + show_items(
                            all.take(i + 1),
                            table@,
                            quoted,
                        ));
                    }
                    i += 1;
                }
                out.push_str(")");
                proof {
                    assert(all.take(i as int) =~= all);
                    assert(out@ =~= old(out)@ + show(self@, table@, quoted));
                }
            },
        }
    }

    /// The value as it is echoed: strings between quotes.
    pub fn echo(&self, table: &StringTable) -> (out: Rendering)
        requires
            known(self@, table@),
        ensures
            out@ == show(self@, table@, true),
    {
        let mut out = Rendering::new();
        self.write(table, true, &mut out);
        assert(out@ =~= show(self@, table@, true));
        out
    }

    /// The value as it is printed: strings as they are.
    pub fn display(&self, table: &StringTable) -> (out: Rendering)
        requires
            known(self@, table@),
        ensures
            out@ == show(self@, table@, false),
    {
        let mut out = Rendering::new();
        self.write(table, false, &mut out);
        assert(out@ =~= show(self@, table@, false));
        out
    }
}

impl From<bool> for Variant {
    fn from(value: bool) -> (variant: Variant) {
        match value {
            true => Variant::BoolTrue,
            false => Variant::BoolFalse,
        }
    }
}

impl FromSpecImpl<bool> for Variant {
    open spec fn obeys_from_spec() -> bool {
        true
    }

    open spec fn from_spec(value: bool) -> Variant {
        if value {
            Variant::BoolTrue
        } else {
            Variant::BoolFalse
        }
    }
}

impl From<IntType> for Variant {
    fn from(value: IntType) -> (variant: Variant) {
        Variant::Integer(value)
    }
}

impl FromSpecImpl<IntType> for Variant {
    open spec fn obeys_from_spec() -> bool {
        true
    }

    open spec fn from_spec(value: IntType) -> Variant {
        Variant::Integer(value)
    }
}

impl From<StringSymbol> for Variant {
    fn from(value: StringSymbol) -> (variant: Variant) {
        Variant::String(value)
    }
}

impl FromSpecImpl<StringSymbol> for Variant {
    open spec fn obeys_from_spec() -> bool {
        true
    }

    open spec fn from_spec(value: StringSymbol) -> Variant {
        Variant::String(value)
    }
}

/// The longest string, in bytes, that is interned without asking whether the
/// table holds it.
pub const AUTO_INTERN_MAX: usize = 40;

impl Variant {
    /// The string `value` as a value. A short string is interned. A long one
    /// is only looked up: if the table does not hold it, there is no value
    /// for it.
    pub fn from_text(value: &str, table: &mut StringTable) -> (variant: Option<Variant>)
        requires
            old(table)@.len() < SYMBOL_LIMIT,
        ensures
            old(table)@.len() <= final(table)@.len(),
            final(table)@.take(old(table)@.len() as int) == old(table)@,
            value.len() > AUTO_INTERN_MAX ==> final(table)@ == old(table)@,
            value.len() > AUTO_INTERN_MAX && !old(table)@.contains(value@)
                ==> variant.is_none(),
            value.len() <= AUTO_INTERN_MAX || old(table)@.contains(value@) ==> (
            variant matches Some(Variant::String(symbol)) && symbol.index() < final(table)@.len()
                && final(table)@[symbol.index() as int] == value@),
    {
        let ghost before = table@;
        if value.len() <= AUTO_INTERN_MAX {
            let symbol = table.get_or_intern(value);
            assert(table@.take(before.len() as int) =~= before);
            return Some(Variant::String(symbol));
        }
        assert(table@.take(before.len() as int) =~= before);
        match table.get(value) {
            Some(symbol) => Some(Variant::String(symbol)),
            None => None,
        }
    }
}

/// Whether the two values are one value, told item by item.
pub fn same_value(a: &Variant, b: &Variant) -> (res: bool)
    requires
        a.hashable(),
        b.hashable(),
    ensures
        res == (a@ == b@),
    decreases a,
{
    match (a, b) {
        (Variant::Nil, Variant::Nil) => true,
        (Variant::EmptyTuple, Variant::EmptyTuple) => true,
        (Variant::BoolTrue, Variant::BoolTrue) => true,
        (Variant::BoolFalse, Variant::BoolFalse) => true,
        (Variant::Integer(x), Variant::Integer(y)) => *x == *y,
        (Variant::String(x), Variant::String(y)) => *x == *y,
        (Variant::Tuple(x), Variant::Tuple(y)) => {
            proof {
                lemma_views(x@);
                lemma_views(y@);
            }
            if x.len() != y.len() {
                return false;
            }
            let mut i: usize = 0;
            while i < x.len()
                invariant
                    i <= x@.len(),
                    x@.len() == y@.len(),
                    a is Tuple,
                    a->Tuple_0 == *x,
                    b is Tuple,
                    b->Tuple_0 == *y,
                    a.hashable(),
                    b.hashable(),
                    views(x@).len() == x@.len(),
                    views(y@).len() == y@.len(),
                    forall|j: int| 0 <= j < x@.len() ==> (#[trigger] views(x@)[j]) == x@[j]@,
                    forall|j: int| 0 <= j < y@.len() ==> (#[trigger] views(y@)[j]) == y@[j]@,
                    forall|j: int| 0 <= j < i ==> (#[trigger] x@[j])@ == y@[j]@,
                decreases x@.len() - i,
            {
                proof {
                    assert(decreases_to!(a => a->Tuple_0));
                    assert(decreases_to!(*x => x[i as int]));
                    assert(x@[i as int].hashable());
                    assert(y@[i as int].hashable());
                }
                if !same_value(&x[i], &y[i]) {
                    proof {
                        assert(views(x@)[i as int] != views(y@)[i as int]);
                    }
                    return false;
                }
                i += 1;
            }
            proof {
                assert(views(x@) =~= views(y@));
            }
            true
        },
        _ => false,
    }
}

/// A value that can be the key of a map.
#[derive(Debug)]
pub struct VariantKey<'a> {
    value: &'a Variant,
}

impl<'a> VariantKey<'a> {
    #[verifier::type_invariant]
    spec fn type_inv(&self) -> bool {
        self.value.hashable()
    }

    pub closed spec fn spec_value(&self) -> &'a Variant {
        self.value
    }

    /// The key that `value` is, unless it holds a float.
    pub fn try_new(value: &'a Variant) -> (key: ExecResult<VariantKey<'a>>)
        ensures
            key is Ok <==> value.hashable(),
            key matches Ok(found) ==> found.spec_value() == value,
            key matches Err(error) ==> (error.spec_kind() matches ErrorKind::UnhashableValue(held)
                && held@ == value@) && error.trace().len() == 0 && error.spec_cause().is_none(),
    {
        if !value.can_hash() {
            return Err(RuntimeError::boxed(ErrorKind::UnhashableValue(value.duplicate())));
        }
        Ok(VariantKey { value })
    }

    #[verifier::when_used_as_spec(spec_value)]
    pub fn value(&self) -> (value: &'a Variant)
        ensures
            value == self.spec_value(),
            value.hashable(),
    {
        proof {
            use_type_invariant(self);
        }
        self.value
    }
}

impl<'a> PartialEq for VariantKey<'a> {
    fn eq(&self, other: &VariantKey<'a>) -> (res: bool) {
        same_value(self.value(), other.value())
    }
}

impl<'a> PartialEqSpecImpl for VariantKey<'a> {
    open spec fn obeys_eq_spec() -> bool {
        true
    }

    open spec fn eq_spec(&self, other: &VariantKey<'a>) -> bool {
        self.spec_value()@ == other.spec_value()@
    }
}

impl<'a> Eq for VariantKey<'a> {

}

/// What a value is tells its type, its truth, its bits, and whether it can be
/// a key.
pub proof fn lemma_value_facts(value: &Variant)
    ensures
        value.spec_type_tag() == value@.tag(),
        value.spec_truth_value() == value@.truth(),
        value.spec_bit_value() == value@.bits(),
        value.hashable() == !value@.holds_float(),
    decreases value,
{
    match value {
        Variant::Tuple(items) => {
            lemma_views(items@);
            let all = views(items@);
            assert(value@ == Value::Tuple(all));
            lemma_any_float(all);
            assert forall|i: int| 0 <= i < items@.len() implies (#[trigger] items@[i]).hashable()
                == !all[i].holds_float() by {
                lemma_value_facts(&items@[i]);
            }
            if value.hashable() {
                if value@.holds_float() {
                    let i = choose|i: int| 0 <= i < all.len() && (#[trigger] all[i]).holds_float();
                    assert(items@[i].hashable());
                }
                assert forall|i: int| 0 <= i < views(items@).len() implies !(#[trigger] views(
                    items@,
                )[i]).holds_float() by {
                    assert(items@[i].hashable());
                }
            } else {
                let i = choose|i: int| 0 <= i < items@.len() && !(#[trigger] items@[i]).hashable();
                assert(views(items@)[i].holds_float());
            }
        },
        _ => {},
    }
}

impl Variant {
    /// Whether every string of the value is a string of `table`.
    pub fn is_known(&self, table: &StringTable) -> (res: bool)
        ensures
            res == known(self@, table@),
        decreases self,
    {
        match self {
            Variant::String(symbol) => symbol.to_usize() < table.len(),
            Variant::Tuple(items) => {
                let ghost all = views(items@);
                proof {
                    lemma_views(items@);
                    assert(self@ == Value::Tuple(all));
                }
                let mut i: usize = 0;
                while i < items.len()
                    invariant
                        i <= items@.len(),
                        self is Tuple,
                        self->Tuple_0 == *items,
                        all == views(items@),
                        all.len() == items@.len(),
                        forall|j: int| 0 <= j < items@.len() ==> (#[trigger] all[j]) == items@[j]@,
                        forall|j: int| 0 <= j < i ==> known(#[trigger] all[j], table@),
                    decreases items@.len() - i,
                {
                    proof {
                        assert(decreases_to!(self => self->Tuple_0));
                        assert(decreases_to!(*items => items[i as int]));
                    }
                    if !items[i].is_known(table) {
                        proof {
                            assert(!known(all[i as int], table@));
                            if known(Value::Tuple(all), table@) {
                                let tuple = Value::Tuple(all);
                                assert(tuple->Tuple_0[i as int] == all[i as int]);
                                assert(known(tuple->Tuple_0[i as int], table@));
                            }
                        }
                        return false;
                    }
                    i += 1;
                }
                proof {
                    assert(known(Value::Tuple(all), table@));
                }
                true
            },
            _ => true,
        }
    }
}

} // verus!
