//! Colours, and the spectrum that avatars take theirs from.

use vstd::prelude::*;

verus! {

/// Bit pattern of the IEEE-754 single-precision value `1.0`.
pub const ONE: u32 = 0x3f80_0000u32;

/// Bit pattern of the IEEE-754 single-precision value `0.0`.
pub const ZERO: u32 = 0u32;

/// Number of colours in the spectrum that `Colors` walks.
pub const SPECTRUM_LEN: usize = 6;

/// A colour as four IEEE-754 single-precision bit patterns.
#[derive(Clone, Copy, PartialEq, Eq, Structural, Debug)]
pub struct Color {
    pub r: u32,
    pub g: u32,
    pub b: u32,
    pub a: u32,
}

/// The opaque colour with each of red, green and blue fully on or off.
pub open spec fn spec_rgb(r: bool, g: bool, b: bool) -> Color {
    Color {
        r: if r { ONE } else { ZERO },
        g: if g { ONE } else { ZERO },
        b: if b { ONE } else { ZERO },
        a: ONE,
    }
}

/// The opaque colour with each of red, green and blue fully on or off.
pub fn rgb(r: bool, g: bool, b: bool) -> (c: Color)
    ensures
        c == spec_rgb(r, g, b),
{
    Color {
        r: if r { ONE } else { ZERO },
        g: if g { ONE } else { ZERO },
        b: if b { ONE } else { ZERO },
        a: ONE,
    }
}

/// White.
pub open spec fn spec_white() -> Color {
    spec_rgb(true, true, true)
}

/// White.
pub fn white() -> (c: Color)
    ensures
        c == spec_white(),
{
    rgb(true, true, true)
}

/// The `i`-th colour of the spectrum: red, yellow, green, cyan, blue, magenta.
pub open spec fn spectrum(i: int) -> Color {
    if i == 0 {
        spec_rgb(true, false, false)
    } else if i == 1 {
        spec_rgb(true, true, false)
    } else if i == 2 {
        spec_rgb(false, true, false)
    } else if i == 3 {
        spec_rgb(false, true, true)
    } else if i == 4 {
        spec_rgb(false, false, true)
    } else {
        spec_rgb(true, false, true)
    }
}

/// The `i`-th colour of the spectrum, counting from zero; from the fifth on it is magenta.
pub fn spectrum_color(i: usize) -> (c: Color)
    ensures
        c == spectrum(i as int),
{
    if i == 0 {
        rgb(true, false, false)
    } else if i == 1 {
        rgb(true, true, false)
    } else if i == 2 {
        rgb(false, true, false)
    } else if i == 3 {
        rgb(false, true, true)
    } else if i == 4 {
        rgb(false, false, true)
    } else {
        rgb(true, false, true)
    }
}

/// Hands out the colours of the spectrum in turn, starting over after the last.
pub struct Colors {
    next_index: usize,
}

impl Colors {
    /// Position in the spectrum of the colour that `next` returns.
    pub closed spec fn position(self) -> int {
        self.next_index as int
    }

    /// Whether the walk stands at a colour of the spectrum.
    pub closed spec fn wf(self) -> bool {
        self.next_index < SPECTRUM_LEN
    }

    /// The position of a well-formed walk is one of the spectrum.
    pub proof fn lemma_position_in_spectrum(self)
        requires
            self.wf(),
        ensures
            0 <= self.position() < SPECTRUM_LEN,
    {
    }

    /// A walk that starts at the first colour.
    pub fn new() -> (c: Colors)
        ensures
            c.wf(),
            c.position() == 0,
    {
        Colors { next_index: 0 }
    }

    /// The colour that the walk stands at; the walk moves on by one.
    pub fn next(&mut self) -> (color: Color)
        requires
            old(self).wf(),
        ensures
            final(self).wf(),
            color == spectrum(old(self).position()),
            final(self).position() == (old(self).position() + 1) % (SPECTRUM_LEN as int),
    {
        let result: Color = spectrum_color(self.next_index);
        self.next_index = (self.next_index + 1) % SPECTRUM_LEN;
        result
    }
}

} // verus!
