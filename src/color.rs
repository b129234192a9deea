//! The color table of a map chunk: tagged, variable-width color records.

use vstd::prelude::*;

use crate::decode::{DecodeError, Decoder, DecoderCursor};

verus! {

/// A color without alpha; channels are signed samples around a neutral zero.
#[derive(Debug, Clone, Copy, PartialEq, Eq, Structural)]
pub struct Rgb {
    pub r: i8,
    pub g: i8,
    pub b: i8,
}

/// A color with alpha; channels are signed samples around a neutral zero.
#[derive(Debug, Clone, Copy, PartialEq, Eq, Structural)]
pub struct Rgba {
    pub r: i8,
    pub g: i8,
    pub b: i8,
    pub a: i8,
}

/// A color record, by the variant that its tag byte names.
#[derive(Debug, Clone, Copy, PartialEq, Eq, Structural)]
pub enum Color {
    /// No color record: sprites keep their own colors.
    Neutral,
    Rgb(Rgb),
    Rgba(Rgba),
    RgbGradient(Rgb, Rgb),
    RgbaGradient(Rgba, Rgba),
}

impl View for Rgb {
    type V = Rgb;

    open spec fn view(&self) -> Rgb {
        *self
    }
}

impl View for Rgba {
    type V = Rgba;

    open spec fn view(&self) -> Rgba {
        *self
    }
}

impl View for Color {
    type V = Color;

    open spec fn view(&self) -> Color {
        *self
    }
}

/// The payload size, in bytes, that a color tag announces: an RGB triple when
/// bit 0 is set, an alpha byte when bit 1 is set, and all of it twice (two
/// gradient stops) when bit 2 is set.
pub open spec fn payload_size(tag: u8) -> nat {
    let a: nat = if tag % 2 == 1 { 3 } else { 0 };
    let b: nat = if (tag / 2) % 2 == 1 { 1 } else { 0 };
    let c: nat = if (tag / 4) % 2 == 1 { 2 } else { 1 };
    (a + b) * c
}

/// The payload sizes of the single-stop tags `0..4`: `0, 3, 1, 4`.
pub proof fn lemma_single_stop_sizes()
    ensures
        payload_size(0) == 0,
        payload_size(1) == 3,
        payload_size(2) == 1,
        payload_size(3) == 4,
{
}

/// The payload sizes of the gradient tags `4..8`: `0, 6, 2, 8`; each stop
/// takes as many bytes as the single-stop tag without bit 2.
pub proof fn lemma_gradient_sizes()
    ensures
        payload_size(4) == 0,
        payload_size(5) == 6,
        payload_size(6) == 2,
        payload_size(7) == 8,
{
}

/// The payload size that a color tag announces.
pub fn size_from_tag(tag: u8) -> (r: usize)
    ensures
        r as nat == payload_size(tag),
        r <= 8,
{
    assert(tag & 1 == 1 <==> tag % 2 == 1) by (bit_vector);
    assert(tag & 2 == 2 <==> (tag / 2) % 2 == 1) by (bit_vector);
    assert(tag & 4 == 4 <==> (tag / 4) % 2 == 1) by (bit_vector);
    let a: usize = if tag & 1 == 1 { 3 } else { 0 };
    let b: usize = if tag & 2 == 2 { 1 } else { 0 };
    let c: usize = if tag & 4 == 4 { 2 } else { 1 };
    (a + b) * c
}

/// The tags of the color variants: none, RGB, RGBA, RGB gradient, RGBA gradient.
pub open spec fn is_color_tag(tag: u8) -> bool {
    tag == 0 || tag == 1 || tag == 3 || tag == 5 || tag == 7
}

/// The RGB triple at `p[i..i + 3]`.
pub open spec fn rgb_at(p: Seq<u8>, i: int) -> Rgb {
    Rgb { r: p[i] as i8, g: p[i + 1] as i8, b: p[i + 2] as i8 }
}

/// The RGBA quadruple at `p[i..i + 4]`.
pub open spec fn rgba_at(p: Seq<u8>, i: int) -> Rgba {
    Rgba { r: p[i] as i8, g: p[i + 1] as i8, b: p[i + 2] as i8, a: p[i + 3] as i8 }
}

/// The color that a record with tag `tag` (one of the color tags) and payload
/// `p` stands for.
pub open spec fn color_of(tag: u8, p: Seq<u8>) -> Color {
    if tag == 0 {
        Color::Neutral
    } else if tag == 1 {
        Color::Rgb(rgb_at(p, 0))
    } else if tag == 3 {
        Color::Rgba(rgba_at(p, 0))
    } else if tag == 5 {
        Color::RgbGradient(rgb_at(p, 0), rgb_at(p, 3))
    } else {
        Color::RgbaGradient(rgba_at(p, 0), rgba_at(p, 4))
    }
}

fn rgb_in(p: &[u8], i: usize) -> (r: Rgb)
    requires
        i + 3 <= p@.len(),
    ensures
        r == rgb_at(p@, i as int),
{
    Rgb { r: p[i] as i8, g: p[i + 1] as i8, b: p[i + 2] as i8 }
}

fn rgba_in(p: &[u8], i: usize) -> (r: Rgba)
    requires
        i + 4 <= p@.len(),
    ensures
        r == rgba_at(p@, i as int),
{
    Rgba { r: p[i] as i8, g: p[i + 1] as i8, b: p[i + 2] as i8, a: p[i + 3] as i8 }
}

impl Decoder for Rgb {
    open spec fn spec_decode(data: Seq<u8>) -> Result<(Rgb, nat), DecodeError> {
        crate::decode::fixed(data, 3, rgb_at(data, 0))
    }

    fn decode(cur: &mut DecoderCursor<'_>) -> (r: Result<Rgb, DecodeError>) {
        match cur.take(3) {
            Ok(b) => Ok(rgb_in(b, 0)),
            Err(e) => Err(e),
        }
    }
}

impl Decoder for Rgba {
    open spec fn spec_decode(data: Seq<u8>) -> Result<(Rgba, nat), DecodeError> {
        crate::decode::fixed(data, 4, rgba_at(data, 0))
    }

    fn decode(cur: &mut DecoderCursor<'_>) -> (r: Result<Rgba, DecodeError>) {
        match cur.take(4) {
            Ok(b) => Ok(rgba_in(b, 0)),
            Err(e) => Err(e),
        }
    }
}

impl Decoder for Color {
    /// A tag byte, then the payload that it announces; a tag that names no
    /// variant is refused.
    open spec fn spec_decode(data: Seq<u8>) -> Result<(Color, nat), DecodeError> {
        if data.len() < 1 {
            Err(DecodeError::Truncated)
        } else if !is_color_tag(data[0]) {
            Err(DecodeError::InvalidTag)
        } else {
            crate::decode::fixed(data, 1 + payload_size(data[0]), color_of(data[0], data.skip(1)))
        }
    }

    fn decode(cur: &mut DecoderCursor<'_>) -> (r: Result<Color, DecodeError>) {
        let start = *cur;
        let tag = match cur.take(1) {
            Ok(b) => b[0],
            Err(e) => return Err(e),
        };
        if !(tag == 0 || tag == 1 || tag == 3 || tag == 5 || tag == 7) {
            *cur = start;
            return Err(DecodeError::InvalidTag);
        }
        proof {
            lemma_single_stop_sizes();
            lemma_gradient_sizes();
        }
        let p = match cur.take(size_from_tag(tag)) {
            Ok(p) => p,
            Err(e) => {
                *cur = start;
                return Err(e);
            },
        };
        assert(cur@ =~= start@.skip(1 + payload_size(tag) as int));
        let color = if tag == 0 {
            Color::Neutral
        } else if tag == 1 {
            Color::Rgb(rgb_in(p, 0))
        } else if tag == 3 {
            Color::Rgba(rgba_in(p, 0))
        } else if tag == 5 {
            Color::RgbGradient(rgb_in(p, 0), rgb_in(p, 3))
        } else {
            Color::RgbaGradient(rgba_in(p, 0), rgba_in(p, 4))
        };
        Ok(color)
    }
}

/// The color that a record shows when drawn still: its own channels, or the
/// first stop of a gradient; RGB colors get a zero alpha.
pub open spec fn first_stop(c: Color) -> Rgba {
    match c {
        Color::Neutral => Rgba { r: 0, g: 0, b: 0, a: 0 },
        Color::Rgb(rgb) => Rgba { r: rgb.r, g: rgb.g, b: rgb.b, a: 0 },
        Color::Rgba(rgba) => rgba,
        Color::RgbGradient(start, _) => Rgba { r: start.r, g: start.g, b: start.b, a: 0 },
        Color::RgbaGradient(start, _) => start,
    }
}

impl From<Rgb> for Rgba {
    fn from(rgb: Rgb) -> (r: Rgba) {
        Rgba { r: rgb.r, g: rgb.g, b: rgb.b, a: 0 }
    }
}

impl vstd::std_specs::convert::FromSpecImpl<Rgb> for Rgba {
    open spec fn obeys_from_spec() -> bool {
        true
    }

    open spec fn from_spec(rgb: Rgb) -> Rgba {
        Rgba { r: rgb.r, g: rgb.g, b: rgb.b, a: 0 }
    }
}

impl From<Color> for Rgba {
    fn from(color: Color) -> (r: Rgba) {
        match color {
            Color::Neutral => Rgba { r: 0, g: 0, b: 0, a: 0 },
            Color::Rgb(rgb) => Rgba::from(rgb),
            Color::Rgba(rgba) => rgba,
            Color::RgbGradient(start, _) => Rgba::from(start),
            Color::RgbaGradient(start, _) => start,
        }
    }
}

impl vstd::std_specs::convert::FromSpecImpl<Color> for Rgba {
    open spec fn obeys_from_spec() -> bool {
        true
    }

    open spec fn from_spec(color: Color) -> Rgba {
        first_stop(color)
    }
}

} // verus!
