//! The glyph encoder: text becomes a chain of panels, one panel per
//! character, by lookup in a font that the caller brings.

use vstd::prelude::*;
use crate::grid::SingleDisplayData;

verus! {

/// One entry of a font: a character and the panel that shows it. The space
/// between neighbouring glyphs is part of the panel.
#[derive(Clone, Copy, Debug, PartialEq, Eq)]
pub struct Glyph {
    pub character: char,
    pub bits: SingleDisplayData,
}

/// A character of the text that the font has no glyph for.
#[derive(Clone, Copy, Debug, PartialEq, Eq)]
pub struct UnsupportedGlyph {
    /// The character without a glyph.
    pub character: char,
    /// Its place in the text, counted in characters from 0.
    pub position: usize,
}

/// The panel that the font has for `c`: that of the first entry for `c`.
pub open spec fn glyph_of(font: Seq<Glyph>, c: char) -> Option<SingleDisplayData>
    decreases font.len(),
{
    if font.len() == 0 {
        None
    } else if font.first().character == c {
        Some(font.first().bits)
    } else {
        glyph_of(font.drop_first(), c)
    }
}

/// A font has a glyph for `c` exactly when one of its entries is for `c`.
pub proof fn lemma_glyph_of_some(font: Seq<Glyph>, c: char)
    ensures
        glyph_of(font, c) is Some <==> exists|i: int| 0 <= i < font.len() && (#[trigger] font[i]).character == c,
    decreases font.len(),
{
    if font.len() > 0 {
        let rest = font.drop_first();
        lemma_glyph_of_some(rest, c);
        if font.first().character == c {
            assert(font[0].character == c);
        } else {
            if glyph_of(rest, c) is Some {
                let i = choose|i: int| 0 <= i < rest.len() && (#[trigger] rest[i]).character == c;
                assert(font[i + 1].character == c);
            }
            if exists|i: int| 0 <= i < font.len() && (#[trigger] font[i]).character == c {
                let i = choose|i: int| 0 <= i < font.len() && (#[trigger] font[i]).character == c;
                assert(rest[i - 1].character == c);
            }
        }
    }
}

/// Looks a character up in the font.
pub fn encode_char(font: &[Glyph], c: char) -> (bits: Option<SingleDisplayData>)
    ensures
        bits == glyph_of(font@, c),
{
    let mut i: usize = 0;
    assert(font@.skip(0) == font@);
    while i < font.len()
        invariant
            i <= font@.len(),
            glyph_of(font@, c) == glyph_of(font@.skip(i as int), c),
        decreases font@.len() - i,
    {
        let ghost rest = font@.skip(i as int);
        assert(rest.first() == font@[i as int]);
        assert(rest.drop_first() == font@.skip(i + 1));
        if font[i].character == c {
            return Some(font[i].bits);
        }
        i += 1;
    }
    assert(font@.skip(i as int).len() == 0);
    None
}

/// Encodes a text: one panel per character, in the order of the text. The
/// encoding fails at the first character that the font has no glyph for, and
/// reports that character and its place; nothing is put in its stead.
pub fn encode_string(font: &[Glyph], text: &str) -> (encoded: Result<Vec<SingleDisplayData>, UnsupportedGlyph>)
    ensures
        encoded is Ok <==> forall|i: int| 0 <= i < text@.len() ==> glyph_of(font@, #[trigger] text@[i]) is Some,
        encoded matches Ok(chain) ==> {
            &&& chain@.len() == text@.len()
            &&& forall|i: int| 0 <= i < text@.len() ==> glyph_of(font@, #[trigger] text@[i]) == Some(chain@[i])
        },
        encoded matches Err(e) ==> {
            &&& e.position < text@.len()
            &&& e.character == text@[e.position as int]
            &&& glyph_of(font@, e.character) is None
            &&& forall|i: int| 0 <= i < e.position ==> glyph_of(font@, #[trigger] text@[i]) is Some
        },
{
    let mut chain: Vec<SingleDisplayData> = Vec::new();
    for c in iter: text.chars()
        invariant
            iter.seq() == text@,
            chain@.len() == iter.index(),
            forall|i: int| 0 <= i < chain@.len() ==> glyph_of(font@, #[trigger] text@[i]) == Some(chain@[i]),
    {
        match encode_char(font, c) {
            Some(bits) => {
                chain.push(bits);
            },
            None => {
                return Err(UnsupportedGlyph { character: c, position: chain.len() });
            },
        }
    }
    Ok(chain)
}

} // verus!
