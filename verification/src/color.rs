use vstd::prelude::*;

verus! {

/// A packed color. The least significant byte holds blue, the next green,
/// the next red; the most significant byte is the alpha (or unused) byte.
#[derive(Debug, Clone, Copy, PartialEq, Eq, Structural)]
pub struct Color(pub u32);

/// The packed value of the color with channels `r`, `g`, `b` and a zero
/// fourth byte.
pub open spec fn pack_rgb(r: u8, g: u8, b: u8) -> u32 {
    (r as int * 65536 + g as int * 256 + b as int) as u32
}

/// The red, green and blue channels of a packed value.
pub open spec fn unpack_rgb(raw: u32) -> (u8, u8, u8) {
    (((raw / 65536) % 256) as u8, ((raw / 256) % 256) as u8, (raw % 256) as u8)
}

impl Color {
    // The packed values of the named colors.
    pub const BLACK: u32 = 0x000000;
    pub const GRAY: u32 = 0x808080;
    pub const WHITE: u32 = 0xFFFFFF;
    pub const LIGHT_GRAY: u32 = 0xC0C0C0;
    pub const RED: u32 = 0xFF0000;
    pub const DARK_RED: u32 = 0x800000;
    pub const GREEN: u32 = 0x00FF00;
    pub const DARK_GREEN: u32 = 0x008000;
    pub const BLUE: u32 = 0x0000FF;
    pub const DARK_BLUE: u32 = 0x000080;
    pub const CYAN: u32 = 0x00FFFF;
    pub const TEAL: u32 = 0x008080;
    pub const MAGENTA: u32 = 0xFF00FF;
    pub const PURPLE: u32 = 0x800080;
    pub const YELLOW: u32 = 0xFFFF00;
    pub const OLIVE: u32 = 0x808000;
    pub const BROWN: u32 = 0xA52A2A;
    pub const GOLD: u32 = 0xFFD700;
    pub const INDIGO: u32 = 0x4B0082;
    pub const SKY_BLUE: u32 = 0x87CDFA;

    /// Packs the three channels; the fourth byte is zero.
    pub fn rgb(r: u8, g: u8, b: u8) -> (c: Color)
        ensures
            c.0 == pack_rgb(r, g, b),
            c.0 < 0x1000000,
            unpack_rgb(c.0) == (r, g, b),
    {
        let raw: u32 = (r as u32) * 65536 + (g as u32) * 256 + (b as u32);
        Color(raw)
    }

    /// The red, green and blue channels; the fourth byte is ignored.
    pub fn to_rgb(self) -> (t: (u8, u8, u8))
        ensures
            t == unpack_rgb(self.0),
    {
        let r: u8 = ((self.0 / 65536) % 256) as u8;
        let g: u8 = ((self.0 / 256) % 256) as u8;
        let b: u8 = (self.0 % 256) as u8;
        (r, g, b)
    }

    /// The gray with all three channels equal to `c`.
    pub fn gray(c: u8) -> (color: Color)
        ensures
            color.0 == pack_rgb(c, c, c),
    {
        Color::rgb(c, c, c)
    }
}

/// What can stand for a color: a color, a packed value, a triple of red,
/// green and blue, or a single byte for a gray.
pub trait ToColor {
    /// The color that the value stands for.
    spec fn color_spec(&self) -> Color;

    /// The color that the value stands for.
    fn to_color(&self) -> (c: Color)
        ensures
            c == self.color_spec(),
    ;
}

impl ToColor for Color {
    open spec fn color_spec(&self) -> Color {
        *self
    }

    fn to_color(&self) -> (c: Color) {
        *self
    }
}

impl ToColor for u32 {
    open spec fn color_spec(&self) -> Color {
        Color(*self)
    }

    fn to_color(&self) -> (c: Color) {
        Color(*self)
    }
}

impl ToColor for (u8, u8, u8) {
    open spec fn color_spec(&self) -> Color {
        Color(pack_rgb(self.0, self.1, self.2))
    }

    fn to_color(&self) -> (c: Color) {
        Color::rgb(self.0, self.1, self.2)
    }
}

impl ToColor for u8 {
    open spec fn color_spec(&self) -> Color {
        Color(pack_rgb(*self, *self, *self))
    }

    fn to_color(&self) -> (c: Color) {
        Color::gray(*self)
    }
}

/// Unpacking what `rgb` packed gives the three channels back.
pub proof fn lemma_rgb_round_trip(r: u8, g: u8, b: u8)
    ensures
        unpack_rgb(pack_rgb(r, g, b)) == (r, g, b),
{
}

impl From<u32> for Color {
    fn from(value: u32) -> (c: Color) {
        Color(value)
    }
}

impl vstd::std_specs::convert::FromSpecImpl<u32> for Color {
    open spec fn obeys_from_spec() -> bool {
        true
    }

    open spec fn from_spec(value: u32) -> Color {
        Color(value)
    }
}

impl From<(u8, u8, u8)> for Color {
    fn from(value: (u8, u8, u8)) -> (c: Color) {
        Color::rgb(value.0, value.1, value.2)
    }
}

impl vstd::std_specs::convert::FromSpecImpl<(u8, u8, u8)> for Color {
    open spec fn obeys_from_spec() -> bool {
        true
    }

    open spec fn from_spec(value: (u8, u8, u8)) -> Color {
        Color(pack_rgb(value.0, value.1, value.2))
    }
}

impl From<u8> for Color {
    fn from(value: u8) -> (c: Color) {
        Color::gray(value)
    }
}

impl vstd::std_specs::convert::FromSpecImpl<u8> for Color {
    open spec fn obeys_from_spec() -> bool {
        true
    }

    open spec fn from_spec(value: u8) -> Color {
        Color(pack_rgb(value, value, value))
    }
}

impl From<Color> for u32 {
    fn from(value: Color) -> (raw: u32) {
        value.0
    }
}

impl vstd::std_specs::convert::FromSpecImpl<Color> for u32 {
    open spec fn obeys_from_spec() -> bool {
        true
    }

    open spec fn from_spec(value: Color) -> u32 {
        value.0
    }
}

} // verus!
