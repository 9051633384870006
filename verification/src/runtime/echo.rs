//! Text with gaps for floats. The library writes every text that it shows:
//! values, tuples, the messages of errors. It does no float arithmetic, so a
//! float is left in the text as its bytes, for whoever prints the text to
//! format.

use vstd::prelude::*;
use vstd::string::StringExecFns;
use crate::language::FloatBytes;

verus! {

/// One place of a text: a character, or a float that is still to be
/// formatted.
pub ghost enum Glyph {
    Char(char),
    Float(Seq<u8>),
}

/// The place that holds the character `ch`.
pub open spec fn char_glyph(ch: char) -> Glyph {
    Glyph::Char(ch)
}

/// The text `text`, with no floats in it.
pub open spec fn glyphs(text: Seq<char>) -> Seq<Glyph>
    decreases text.len(),
{
    if text.len() == 0 {
        Seq::empty()
    } else {
        glyphs(text.drop_last()).push(char_glyph(text.last()))
    }
}

/// A piece of a text: characters, or one float.
#[derive(Debug)]
pub enum Piece {
    Text(String),
    Float(FloatBytes),
}

impl Piece {
    /// What the piece holds.
    pub open spec fn glyphs(&self) -> Seq<Glyph> {
        match self {
            Piece::Text(text) => glyphs(text@),
            Piece::Float(bytes) => seq![Glyph::Float(bytes@)],
        }
    }
}

/// What `pieces` hold, one after the other.
pub open spec fn flatten(pieces: Seq<Piece>) -> Seq<Glyph>
    decreases pieces.len(),
{
    if pieces.len() == 0 {
        Seq::empty()
    } else {
        flatten(pieces.drop_last()) + pieces.last().glyphs()
    }
}

/// Whether `text` holds no float.
pub open spec fn plain(text: Seq<Glyph>) -> bool {
    forall|i: int| 0 <= i < text.len() ==> (#[trigger] text[i]) is Char
}

/// The characters of a text that holds no float.
pub open spec fn chars(text: Seq<Glyph>) -> Seq<char>
    decreases text.len(),
{
    if text.len() == 0 {
        Seq::empty()
    } else {
        match text.last() {
            Glyph::Char(ch) => chars(text.drop_last()).push(ch),
            Glyph::Float(_) => chars(text.drop_last()),
        }
    }
}

/// A text in the making.
#[derive(Debug)]
pub struct Rendering {
    pieces: Vec<Piece>,
}

impl View for Rendering {
    type V = Seq<Glyph>;

    closed spec fn view(&self) -> Seq<Glyph> {
        flatten(self.pieces@)
    }
}

impl Rendering {
    pub fn new() -> (out: Rendering)
        ensures
            out@ == Seq::<Glyph>::empty(),
    {
        Rendering { pieces: Vec::new() }
    }

    /// Writes `text` at the end.
    pub fn push_str(&mut self, text: &str)
        ensures
            final(self)@ == old(self)@ + glyphs(text@),
    {
        self.pieces.push(Piece::Text(String::from_str(text)));
        assert(self.pieces@.drop_last() =~= old(self).pieces@);
    }

    /// Leaves a float at the end.
    pub fn push_float(&mut self, bytes: FloatBytes)
        ensures
            final(self)@ == old(self)@.push(Glyph::Float(bytes@)),
    {
        self.pieces.push(Piece::Float(bytes));
        assert(self.pieces@.drop_last() =~= old(self).pieces@);
        assert(self@ =~= old(self)@.push(Glyph::Float(bytes@)));
    }

    /// The pieces of the text, in their order.
    pub fn pieces(&self) -> (pieces: &Vec<Piece>)
        ensures
            flatten(pieces@) == self@,
    {
        &self.pieces
    }

    /// The text, if it holds no float.
    pub fn into_text(self) -> (text: Option<String>)
        ensures
            text.is_some() <==> plain(self@),
            text.is_some() ==> text.unwrap()@ == chars(self@),
    {
        let mut text = String::new();
        let mut i: usize = 0;
        while i < self.pieces.len()
            invariant
                i <= self.pieces@.len(),
                plain(flatten(self.pieces@.take(i as int))),
                text@ == chars(flatten(self.pieces@.take(i as int))),
            decreases self.pieces@.len() - i,
        {
            let ghost prev = flatten(self.pieces@.take(i as int));
            let ghost upto = flatten(self.pieces@.take(i + 1));
            proof {
                assert(self.pieces@.take(i + 1).drop_last() =~= self.pieces@.take(i as int));
                assert(self.pieces@.take(i + 1).last() == self.pieces@[i as int]);
                assert(upto == prev + self.pieces@[i as int].glyphs());
                lemma_flatten_prefix(self.pieces@, i + 1);
            }
            match &self.pieces[i] {
                Piece::Text(part) => {
                    text.append(part.as_str());
                    proof {
                        lemma_glyphs(part@);
                        lemma_plain_concat(prev, glyphs(part@));
                    }
                },
                Piece::Float(_) => {
                    proof {
                        assert(upto.last() is Float);
                        let at = upto.len() - 1;
                        assert(self@[at] == upto[at]);
                    }
                    return None;
                },
            }
            i += 1;
        }
        assert(self.pieces@.take(i as int) =~= self.pieces@);
        Some(text)
    }
}

/// A text without floats has its characters one by one: it is plain, and
/// its characters are the text.
pub proof fn lemma_glyphs(text: Seq<char>)
    ensures
        glyphs(text).len() == text.len(),
        forall|i: int| 0 <= i < text.len() ==> (#[trigger] glyphs(text)[i]) == Glyph::Char(text[i]),
        plain(glyphs(text)),
        chars(glyphs(text)) == text,
    decreases text.len(),
{
    if text.len() > 0 {
        lemma_glyphs(text.drop_last());
        assert(glyphs(text).drop_last() =~= glyphs(text.drop_last()));
        assert(chars(glyphs(text)) =~= text);
    }
}

/// Writing one text behind another writes their characters one behind the
/// other.
pub proof fn lemma_glyphs_concat(a: Seq<char>, b: Seq<char>)
    ensures
        glyphs(a + b) == glyphs(a) + glyphs(b),
{
    lemma_glyphs(a);
    lemma_glyphs(b);
    lemma_glyphs(a + b);
    assert(glyphs(a + b) =~= glyphs(a) + glyphs(b));
}

/// Two plain texts make a plain text, with the characters of both.
pub proof fn lemma_plain_concat(a: Seq<Glyph>, b: Seq<Glyph>)
    requires
        plain(a),
        plain(b),
    ensures
        plain(a + b),
        chars(a + b) == chars(a) + chars(b),
{
    assert forall|i: int| 0 <= i < (a + b).len() implies (#[trigger] (a + b)[i]) is Char by {
        if i < a.len() {
            assert((a + b)[i] == a[i]);
        } else {
            assert((a + b)[i] == b[i - a.len()]);
        }
    }
    lemma_chars_concat(a, b);
}

/// The characters of two texts, one behind the other.
pub proof fn lemma_chars_concat(a: Seq<Glyph>, b: Seq<Glyph>)
    ensures
        chars(a + b) == chars(a) + chars(b),
    decreases b.len(),
{
    if b.len() == 0 {
        assert(a + b =~= a);
        assert(chars(a) + chars(b) =~= chars(a));
    } else {
        lemma_chars_concat(a, b.drop_last());
        assert((a + b).drop_last() =~= a + b.drop_last());
        assert((a + b).last() == b.last());
        assert(chars(a + b) =~= chars(a) + chars(b));
    }
}

/// What the first pieces hold is the start of what all of them hold.
pub proof fn lemma_flatten_prefix(pieces: Seq<Piece>, count: int)
    requires
        0 <= count <= pieces.len(),
    ensures
        flatten(pieces.take(count)).len() <= flatten(pieces).len(),
        flatten(pieces).take(flatten(pieces.take(count)).len() as int) == flatten(
            pieces.take(count),
        ),
    decreases pieces.len() - count,
{
    if count < pieces.len() {
        lemma_flatten_prefix(pieces, count + 1);
        assert(pieces.take(count + 1).drop_last() =~= pieces.take(count));
        let shorter = flatten(pieces.take(count));
        let longer = flatten(pieces.take(count + 1));
        assert(longer.take(shorter.len() as int) =~= shorter);
        assert(flatten(pieces).take(shorter.len() as int) =~= flatten(pieces).take(
            longer.len() as int,
        ).take(shorter.len() as int));
    } else {
        assert(pieces.take(count) =~= pieces);
        assert(flatten(pieces).take(flatten(pieces).len() as int) =~= flatten(pieces));
    }
}

} // verus!
