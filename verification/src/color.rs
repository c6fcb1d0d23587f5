//! Colors and the wire form of a color buffer.

use vstd::prelude::*;

verus! {

/// One LED's color: three 8-bit channels.
#[derive(Clone, Copy, PartialEq, Eq, Structural, Debug)]
pub struct Color {
    pub r: u8,
    pub g: u8,
    pub b: u8,
}

impl Color {
    /// Serialized form of one color: the three channels in R, G, B order.
    pub open spec fn bytes(self) -> Seq<u8> {
        seq![self.r, self.g, self.b]
    }

    pub fn black() -> (c: Color)
        ensures
            c == (Color { r: 0, g: 0, b: 0 }),
    {
        Color { r: 0, g: 0, b: 0 }
    }

    pub fn to_bytes(&self) -> (out: Vec<u8>)
        ensures
            out@ == self.bytes(),
    {
        let mut out: Vec<u8> = Vec::new();
        out.push(self.r);
        out.push(self.g);
        out.push(self.b);
        proof {
            assert(out@ =~= self.bytes());
        }
        out
    }
}

impl Default for Color {
    /// A switched-off LED: all channels zero.
    fn default() -> (c: Color)
        ensures
            c == (Color { r: 0, g: 0, b: 0 }),
    {
        Color { r: 0, g: 0, b: 0 }
    }
}

/// The wire form of a whole color buffer: 3 bytes per LED, LEDs in index order.
pub open spec fn serialized(colors: Seq<Color>) -> Seq<u8>
    decreases colors.len(),
{
    if colors.len() == 0 {
        Seq::empty()
    } else {
        serialized(colors.drop_last()) + colors.last().bytes()
    }
}

/// A color buffer of N LEDs serializes to exactly 3·N bytes, laid out
/// R,G,B,R,G,B,… in buffer index order.
pub proof fn lemma_serialized_layout(colors: Seq<Color>)
    ensures
        serialized(colors).len() == 3 * colors.len(),
        forall|i: int|
            0 <= i < colors.len() ==> serialized(colors)[3 * i] == colors[i].r
                && serialized(colors)[3 * i + 1] == colors[i].g && serialized(colors)[3 * i + 2]
                == colors[i].b,
    decreases colors.len(),
{
    if colors.len() > 0 {
        lemma_serialized_layout(colors.drop_last());
        assert forall|i: int| 0 <= i < colors.len() implies serialized(colors)[3 * i]
            == colors[i].r && serialized(colors)[3 * i + 1] == colors[i].g && serialized(
            colors,
        )[3 * i + 2] == colors[i].b by {
            if i < colors.len() - 1 {
                assert(colors.drop_last()[i] == colors[i]);
            }
        }
    }
}

/// Serializes a color buffer for the transport: 3 bytes per LED, index order.
pub fn serialize_colors(colors: &Vec<Color>) -> (out: Vec<u8>)
    ensures
        out@ == serialized(colors@),
        out@.len() == 3 * colors@.len(),
{
    let mut out: Vec<u8> = Vec::new();
    let mut i: usize = 0;
    while i < colors.len()
        invariant
            i <= colors@.len(),
            out@ == serialized(colors@.take(i as int)),
            out@.len() == 3 * i,
        decreases colors@.len() - i,
    {
        proof {
            lemma_serialized_layout(colors@.take(i as int));
            assert(colors@.take(i + 1).drop_last() =~= colors@.take(i as int));
            assert(colors@.take(i + 1).last() == colors@[i as int]);
        }
        out.push(colors[i].r);
        out.push(colors[i].g);
        out.push(colors[i].b);
        proof {
            assert(out@ =~= serialized(colors@.take(i + 1)));
        }
        i = i + 1;
    }
    proof {
        assert(colors@.take(colors@.len() as int) =~= colors@);
        lemma_serialized_layout(colors@);
    }
    out
}

/// Overwrites one LED of a color buffer.
pub fn set_color(colors: &mut Vec<Color>, i: usize, c: Color)
    requires
        i < old(colors)@.len(),
    ensures
        final(colors)@ == old(colors)@.update(i as int, c),
{
    let p = &mut colors[i];
    *p = c;
}

} // verus!
