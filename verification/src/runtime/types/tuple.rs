//! Tuples.

use vstd::prelude::*;
use crate::runtime::echo::{glyphs, Glyph, Rendering};
use crate::runtime::strings::StringTable;
use crate::runtime::variant::{known, lemma_views, show_items, views, TypeTag, Value, Variant};

verus! {

/// A tuple: the empty one, or one with items.
#[derive(Debug)]
pub enum Tuple {
    Empty,
    NonEmpty(Vec<Variant>),
}

impl View for Tuple {
    type V = Seq<Value>;

    open spec fn view(&self) -> Seq<Value> {
        match self {
            Tuple::Empty => Seq::empty(),
            Tuple::NonEmpty(items) => views(items@),
        }
    }
}

impl Default for Tuple {
    fn default() -> (tuple: Tuple)
        ensures
            tuple@ == Seq::<Value>::empty(),
    {
        Tuple::Empty
    }
}

/// How a tuple with the items `items` is shown: the items as they are
/// echoed, in parentheses with `, ` between them.
pub open spec fn show_tuple(items: Seq<Value>, table: Seq<Seq<char>>) -> Seq<Glyph> {
    glyphs("("@) + show_items(items, table, true) + glyphs(")"@)
}

impl Tuple {
    /// The tuple of `items`: the empty tuple if there are none.
    pub fn from_items(items: Vec<Variant>) -> (tuple: Tuple)
        ensures
            tuple@ == views(items@),
            tuple is Empty <==> items@.len() == 0,
    {
        if items.len() == 0 {
            Tuple::Empty
        } else {
            Tuple::NonEmpty(items)
        }
    }

    /// The items of the tuple.
    pub fn items(&self) -> (items: &[Variant])
        ensures
            views(items@) == self@,
    {
        match self {
            Tuple::Empty => {
                let none: &[Variant] = &[];
                assert(none@.len() == 0);
                none
            },
            Tuple::NonEmpty(items) => items.as_slice(),
        }
    }

    pub fn len(&self) -> (len: usize)
        ensures
            len == self@.len(),
    {
        match self {
            Tuple::Empty => 0,
            Tuple::NonEmpty(items) => {
                proof {
                    lemma_views(items@);
                }
                items.len()
            },
        }
    }

    /// Whether this is the empty tuple.
    pub fn is_empty(&self) -> (empty: bool)
        ensures
            empty == (self is Empty),
    {
        match self {
            Tuple::Empty => true,
            Tuple::NonEmpty(..) => false,
        }
    }

    pub fn type_tag(&self) -> (tag: TypeTag)
        ensures
            tag == TypeTag::Tuple,
    {
        TypeTag::Tuple
    }

    /// The tuple as it is echoed.
    pub fn fmt_echo(&self, table: &StringTable) -> (out: Rendering)
        requires
            forall|i: int| 0 <= i < self@.len() ==> known(#[trigger] self@[i], table@),
        ensures
            out@ == show_tuple(self@, table@),
    {
        let mut out = Rendering::new();
        out.push_str("(");
        match self {
            Tuple::Empty => {
                assert(show_items(self@, table@, true) =~= Seq::<Glyph>::empty());
            },
            Tuple::NonEmpty(items) => {
                let ghost all = views(items@);
                proof {
                    lemma_views(items@);
                    assert(self@ == all);
                    assert forall|j: int| 0 <= j < all.len() implies known(
                        #[trigger] all[j],
                        table@,
                    ) by {
                        assert(known(self@[j], table@));
                    }
                }
                let mut i: usize = 0;
                while i < items.len()
                    invariant
                        i <= items@.len(),
                        all == views(items@),
                        all.len() == items@.len(),
                        forall|j: int| 0 <= j < items@.len() ==> (#[trigger] all[j]) == items@[j]@,
                        forall|j: int| 0 <= j < all.len() ==> known(#[trigger] all[j], table@),
                        out@ == glyphs("("@) + show_items(all.take(i as int), table@, true),
                    decreases items@.len() - i,
                {
                    proof {
                        assert(all.take(i + 1).drop_last() =~= all.take(i as int));
                        assert(all.take(i + 1).last() == all[i as int]);
                    }
                    if i > 0 {
                        out.push_str(", ");
                    }
                    items[i].write(table, true, &mut out);
                    proof {
                        if i == 0 {
                            assert(all.take(1)[0] == all[0]);
                            assert(show_items(all.take(0), table@, true) =~= Seq::<Glyph>::empty());
                        }
                        assert(out@ =~= glyphs("("@) + show_items(all.take(i + 1), table@, true));
                    }
                    i += 1;
                }
                assert(all.take(i as int) =~= all);
            },
        }
        out.push_str(")");
        assert(out@ =~= show_tuple(self@, table@));
        out
    }
}

} // verus!
