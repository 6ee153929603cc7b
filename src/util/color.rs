use vstd::prelude::*;

verus! {

/// Largest value of an 8-bit channel.
pub const CHANNEL_MAX: u16 = 0xFF;

/// Widens a 5-bit channel to 8 bits, repeating its top bits in the low ones.
pub open spec fn scale5(v: int) -> int {
    v * 8 + (v * 8) / 32
}

/// The product of two 8-bit channels in 8-bit fixed point.
pub open spec fn mul_channel(a: int, b: int) -> int {
    (a * b) / 255
}

/// Where the three 5-bit fields of a packed color word go.
#[derive(Clone, Copy, Debug, PartialEq, Eq, Structural)]
pub enum ChannelOrder {
    /// Bits 0..5 are red, 5..10 green, 10..15 blue.
    Rgb,
    /// Bits 0..5 are blue, 5..10 green, 10..15 red.
    Bgr,
}

/// An 8-bit RGBA color.
#[derive(Clone, Copy, Debug, PartialEq, Eq, Structural)]
pub struct Color {
    pub r: u8,
    pub g: u8,
    pub b: u8,
    pub a: u8,
}

impl Color {
    pub open spec fn red(self) -> u8 {
        self.r
    }

    pub open spec fn green(self) -> u8 {
        self.g
    }

    pub open spec fn blue(self) -> u8 {
        self.b
    }

    pub open spec fn alpha(self) -> u8 {
        self.a
    }

    /// The four channels in memory order.
    pub open spec fn bytes(self) -> Seq<u8> {
        seq![self.r, self.g, self.b, self.a]
    }

    /// The color of the little-endian packed word `lo`, `hi`.
    pub open spec fn of_word(lo: u8, hi: u8, order: ChannelOrder) -> Color {
        let word = lo as int + hi as int * 256;
        let low = scale5(word % 32) as u8;
        let mid = scale5((word / 32) % 32) as u8;
        let high = scale5((word / 1024) % 32) as u8;
        match order {
            ChannelOrder::Rgb => Color { r: low, g: mid, b: high, a: 255 },
            ChannelOrder::Bgr => Color { r: high, g: mid, b: low, a: 255 },
        }
    }

    /// The color of the little-endian packed word `bytes`.
    pub open spec fn unpacked(bytes: [u8; 2], order: ChannelOrder) -> Color {
        Color::of_word(bytes@[0], bytes@[1], order)
    }

    pub fn new(r: u8, g: u8, b: u8, a: u8) -> (c: Color)
        ensures
            c.red() == r,
            c.green() == g,
            c.blue() == b,
            c.alpha() == a,
    {
        Color { r, g, b, a }
    }

    /// Decodes a packed 15-bit color word in the given channel order; the
    /// result is opaque.
    pub fn from_packed(bytes: [u8; 2], order: ChannelOrder) -> (c: Color)
        ensures
            c == Color::unpacked(bytes, order),
    {
        let word: u16 = bytes[0] as u16 + bytes[1] as u16 * 256;
        let low = widen5(word % 32);
        let mid = widen5((word / 32) % 32);
        let high = widen5((word / 1024) % 32);
        match order {
            ChannelOrder::Rgb => Color { r: low, g: mid, b: high, a: 0xFF },
            ChannelOrder::Bgr => Color { r: high, g: mid, b: low, a: 0xFF },
        }
    }

    /// Decodes a packed 15-bit color word whose lowest field is red.
    pub fn from_rgb555(bytes: [u8; 2]) -> (c: Color)
        ensures
            c == Color::unpacked(bytes, ChannelOrder::Rgb),
    {
        Color::from_packed(bytes, ChannelOrder::Rgb)
    }

    pub fn r(&self) -> (v: u8)
        ensures
            v == self.red(),
    {
        self.r
    }

    pub fn g(&self) -> (v: u8)
        ensures
            v == self.green(),
    {
        self.g
    }

    pub fn b(&self) -> (v: u8)
        ensures
            v == self.blue(),
    {
        self.b
    }

    pub fn a(&self) -> (v: u8)
        ensures
            v == self.alpha(),
    {
        self.a
    }

    /// The channel-wise product of two colors.
    pub open spec fn product(self, other: Color) -> Color {
        Color {
            r: mul_channel(self.r as int, other.r as int) as u8,
            g: mul_channel(self.g as int, other.g as int) as u8,
            b: mul_channel(self.b as int, other.b as int) as u8,
            a: mul_channel(self.a as int, other.a as int) as u8,
        }
    }

    /// Multiplies each channel by the other color's, scaled by `1/255`.
    pub fn multiply(&self, other: Color) -> (c: Color)
        ensures
            c == self.product(other),
    {
        Color {
            r: mul_u8(self.r, other.r),
            g: mul_u8(self.g, other.g),
            b: mul_u8(self.b, other.b),
            a: mul_u8(self.a, other.a),
        }
    }

    /// The color whose channels are `value`, red first.
    pub fn from_array(value: [u8; 4]) -> (c: Color)
        ensures
            c.bytes() == value@,
    {
        let c = Color { r: value[0], g: value[1], b: value[2], a: value[3] };
        assert(c.bytes() =~= value@);
        c
    }

    /// The channels, red first.
    pub fn to_array(&self) -> (v: [u8; 4])
        ensures
            v@ == self.bytes(),
    {
        let v = [self.r, self.g, self.b, self.a];
        assert(v@ =~= self.bytes());
        v
    }
}

/// `v * 8 + v * 8 / 32` for a 5-bit `v`.
fn widen5(v: u16) -> (c: u8)
    requires
        v < 32,
    ensures
        c == scale5(v as int),
{
    let c8: u16 = v * 8;
    (c8 + c8 / 32) as u8
}

/// The fixed-point product of two channels.
pub fn mul_u8(a: u8, b: u8) -> (c: u8)
    ensures
        c == mul_channel(a as int, b as int),
{
    assert(a as int * b as int <= 255 * 255) by (nonlinear_arith)
        requires a <= 255, b <= 255;
    assert((a as int * b as int) / 255 <= 255) by (nonlinear_arith)
        requires a as int * b as int <= 255 * 255;
    ((a as u16 * b as u16) / CHANNEL_MAX) as u8
}

impl From<[u8; 4]> for Color {
    fn from(value: [u8; 4]) -> (c: Color) {
        Color::from_array(value)
    }
}

impl vstd::std_specs::convert::FromSpecImpl<[u8; 4]> for Color {
    open spec fn obeys_from_spec() -> bool {
        true
    }

    open spec fn from_spec(value: [u8; 4]) -> Color {
        Color { r: value@[0], g: value@[1], b: value@[2], a: value@[3] }
    }
}

} // verus!
