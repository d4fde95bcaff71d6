//! Colours of the display: gray levels for e-ink panels, RGB triples for
//! colour screens.
use vstd::prelude::*;

verus! {

#[derive(Debug, Clone, Copy, PartialEq, Eq, Hash, Structural)]
pub enum Colour {
    Gray(u8),
    Rgb(u8, u8, u8),
}

/// The gray level of black.
pub const BLACK: u8 = 0;

/// The gray level of white.
pub const WHITE: u8 = 255;

/// A dark gray level.
pub const GRAY06: u8 = 0x66;

/// A light gray level.
pub const GRAY08: u8 = 0x88;

impl Colour {
    /// The red, green and blue components; a gray level gives three equal ones.
    pub open spec fn spec_rgb(self) -> [u8; 3] {
        match self {
            Colour::Gray(level) => [level, level, level],
            Colour::Rgb(red, green, blue) => [red, green, blue],
        }
    }

    pub fn rgb(&self) -> (c: [u8; 3])
        ensures
            c == self.spec_rgb(),
    {
        match *self {
            Colour::Gray(level) => [level, level, level],
            Colour::Rgb(red, green, blue) => [red, green, blue],
        }
    }

    /// The colour with every component replaced by its complement to 255.
    pub open spec fn spec_inverted(self) -> Colour {
        match self {
            Colour::Gray(level) => Colour::Gray((255 - level) as u8),
            Colour::Rgb(red, green, blue) => Colour::Rgb(
                (255 - red) as u8,
                (255 - green) as u8,
                (255 - blue) as u8,
            ),
        }
    }

    pub fn invert(&mut self)
        ensures
            *final(self) == old(self).spec_inverted(),
    {
        match *self {
            Colour::Gray(level) => {
                *self = Colour::Gray(255 - level);
            },
            Colour::Rgb(red, green, blue) => {
                *self = Colour::Rgb(255 - red, 255 - green, 255 - blue);
            },
        }
    }
}

impl Colour {
    /// The colour with every component lowered by `drift`, down to zero at
    /// most.
    pub open spec fn spec_shifted(self, drift: u8) -> Colour {
        match self {
            Colour::Gray(level) => Colour::Gray(sat_sub(level, drift)),
            Colour::Rgb(red, green, blue) => Colour::Rgb(
                sat_sub(red, drift),
                sat_sub(green, drift),
                sat_sub(blue, drift),
            ),
        }
    }

    pub fn shift(&mut self, drift: u8)
        ensures
            *final(self) == old(self).spec_shifted(drift),
    {
        match *self {
            Colour::Gray(level) => {
                *self = Colour::Gray(level.saturating_sub(drift));
            },
            Colour::Rgb(red, green, blue) => {
                *self = Colour::Rgb(
                    red.saturating_sub(drift),
                    green.saturating_sub(drift),
                    blue.saturating_sub(drift),
                );
            },
        }
    }
}

/// `a - b`, or zero when `b` is larger.
pub open spec fn sat_sub(a: u8, b: u8) -> u8 {
    if a >= b {
        (a - b) as u8
    } else {
        0
    }
}

/// Inverting twice gives the colour back.
pub proof fn lemma_invert_involutive(c: Colour)
    ensures
        c.spec_inverted().spec_inverted() == c,
{
}

} // verus!
