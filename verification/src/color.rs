use vstd::prelude::*;

verus! {

/// An RGBA colour, one byte per channel.
#[derive(Clone, Copy, Debug, PartialEq, Eq, Structural)]
pub struct Color {
    pub r: u8,
    pub g: u8,
    pub b: u8,
    pub a: u8,
}

impl Color {
    /// Builds a colour from its four channels.
    pub fn new(r: u8, g: u8, b: u8, a: u8) -> (c: Color)
        ensures
            c == (Color { r, g, b, a }),
    {
        Color { r, g, b, a }
    }

    /// Fully transparent black: what a read outside the picture gives.
    pub open spec fn spec_blank() -> Color {
        Color { r: 0, g: 0, b: 0, a: 0 }
    }

    /// Fully transparent black: what a read outside the picture gives.
    #[verifier::when_used_as_spec(spec_blank)]
    pub fn blank() -> (c: Color)
        ensures
            c == Self::spec_blank(),
    {
        Color { r: 0, g: 0, b: 0, a: 0 }
    }

    /// Opaque black.
    pub open spec fn spec_black() -> Color {
        Color { r: 0, g: 0, b: 0, a: 255 }
    }

    /// Opaque black.
    #[verifier::when_used_as_spec(spec_black)]
    pub fn black() -> (c: Color)
        ensures
            c == Self::spec_black(),
    {
        Color { r: 0, g: 0, b: 0, a: 255 }
    }

    /// Opaque white.
    pub open spec fn spec_white() -> Color {
        Color { r: 255, g: 255, b: 255, a: 255 }
    }

    /// Opaque white.
    #[verifier::when_used_as_spec(spec_white)]
    pub fn white() -> (c: Color)
        ensures
            c == Self::spec_white(),
    {
        Color { r: 255, g: 255, b: 255, a: 255 }
    }

    /// Opaque green (`#008000`).
    pub open spec fn spec_green() -> Color {
        Color { r: 0, g: 128, b: 0, a: 255 }
    }

    /// Opaque green (`#008000`).
    #[verifier::when_used_as_spec(spec_green)]
    pub fn green() -> (c: Color)
        ensures
            c == Self::spec_green(),
    {
        Color { r: 0, g: 128, b: 0, a: 255 }
    }

    /// Opaque yellow (`#ffff00`).
    pub open spec fn spec_yellow() -> Color {
        Color { r: 255, g: 255, b: 0, a: 255 }
    }

    /// Opaque yellow (`#ffff00`).
    #[verifier::when_used_as_spec(spec_yellow)]
    pub fn yellow() -> (c: Color)
        ensures
            c == Self::spec_yellow(),
    {
        Color { r: 255, g: 255, b: 0, a: 255 }
    }

    /// The light grey in which a traced ray is drawn (`#f5f5f5`).
    pub open spec fn spec_whitesmoke() -> Color {
        Color { r: 245, g: 245, b: 245, a: 255 }
    }

    /// The light grey in which a traced ray is drawn (`#f5f5f5`).
    #[verifier::when_used_as_spec(spec_whitesmoke)]
    pub fn whitesmoke() -> (c: Color)
        ensures
            c == Self::spec_whitesmoke(),
    {
        Color { r: 245, g: 245, b: 245, a: 255 }
    }

    /// The purple of the maze walls on the minimap (`#836c92`).
    pub open spec fn spec_wall() -> Color {
        Color { r: 131, g: 108, b: 146, a: 255 }
    }

    /// The purple of the maze walls on the minimap (`#836c92`).
    #[verifier::when_used_as_spec(spec_wall)]
    pub fn wall() -> (c: Color)
        ensures
            c == Self::spec_wall(),
    {
        Color { r: 131, g: 108, b: 146, a: 255 }
    }

    /// The colour that sprite textures use for "no pixel here" (`#980088`).
    pub open spec fn spec_transparent() -> Color {
        Color { r: 152, g: 0, b: 136, a: 255 }
    }

    /// The colour that sprite textures use for "no pixel here" (`#980088`).
    #[verifier::when_used_as_spec(spec_transparent)]
    pub fn transparent() -> (c: Color)
        ensures
            c == Self::spec_transparent(),
    {
        Color { r: 152, g: 0, b: 136, a: 255 }
    }

    /// The floor of the 3D view (`#5c9599`).
    pub open spec fn spec_floor() -> Color {
        Color { r: 0x5c, g: 0x95, b: 0x99, a: 255 }
    }

    /// The floor of the 3D view (`#5c9599`).
    #[verifier::when_used_as_spec(spec_floor)]
    pub fn floor() -> (c: Color)
        ensures
            c == Self::spec_floor(),
    {
        Color { r: 0x5c, g: 0x95, b: 0x99, a: 255 }
    }
}

/// The named colours, channel by channel (red, green, blue, alpha).
pub proof fn lemma_named_colors()
    ensures
        Color::spec_blank() == (Color { r: 0, g: 0, b: 0, a: 0 }),
        Color::spec_black() == (Color { r: 0, g: 0, b: 0, a: 255 }),
        Color::spec_white() == (Color { r: 255, g: 255, b: 255, a: 255 }),
        Color::spec_green() == (Color { r: 0, g: 128, b: 0, a: 255 }),
        Color::spec_yellow() == (Color { r: 255, g: 255, b: 0, a: 255 }),
        Color::spec_whitesmoke() == (Color { r: 245, g: 245, b: 245, a: 255 }),
        Color::spec_wall() == (Color { r: 0x83, g: 0x6c, b: 0x92, a: 255 }),
        Color::spec_transparent() == (Color { r: 152, g: 0, b: 136, a: 255 }),
        Color::spec_floor() == (Color { r: 0x5c, g: 0x95, b: 0x99, a: 255 }),
{
}

} // verus!
