//! The packed texture container: a magic-tagged header, then the RGBA pixel
//! payload and an auxiliary alpha mask.

use vstd::prelude::*;

use crate::decode::{get_u16, get_u32, u16_at, u32_at, DecodeError};

verus! {

/// Whether `v` is a power of two.
pub open spec fn is_power_of_two(v: u32) -> bool {
    v != 0 && v & ((v - 1) as u32) == 0
}

/// `r` is what rounding `value` up to a power of two gives: values below 2
/// stay as they are; any other value goes to the least power of two that is
/// not below it.
pub open spec fn rounds_up_to(value: u32, r: u32) -> bool {
    if value < 2 {
        r == value
    } else {
        is_power_of_two(r) && r >= value && r >> 1u32 < value
    }
}

/// Rounds `value` up to a power of two by smearing the bits of `value - 1`
/// to the right and adding one.
pub fn round_up_to_power_of_two(value: u32) -> (r: u32)
    requires
        value <= 0x8000_0000,
    ensures
        rounds_up_to(value, r),
{
    if value < 2 {
        return value;
    }
    let v0 = value - 1;
    let v1 = v0 | v0 >> 1;
    let v2 = v1 | v1 >> 2;
    let v3 = v2 | v2 >> 4;
    let v4 = v3 | v3 >> 8;
    let v5 = v4 | v4 >> 16;
    assert(v5 < 0xFFFF_FFFF) by (bit_vector)
        requires
            2 <= value <= 0x8000_0000,
            v0 == (value - 1) as u32,
            v1 == v0 | v0 >> 1,
            v2 == v1 | v1 >> 2,
            v3 == v2 | v2 >> 4,
            v4 == v3 | v3 >> 8,
            v5 == v4 | v4 >> 16,
    ;
    let r = v5 + 1;
    assert(r != 0 && r & ((r - 1) as u32) == 0 && r >= value && r >> 1u32 < value) by (bit_vector)
        requires
            2 <= value <= 0x8000_0000,
            v0 == (value - 1) as u32,
            v1 == v0 | v0 >> 1,
            v2 == v1 | v1 >> 2,
            v3 == v2 | v2 >> 4,
            v4 == v3 | v3 >> 8,
            v5 == v4 | v4 >> 16,
            v5 < 0xFFFF_FFFF,
            r == (v5 + 1) as u32,
    ;
    r
}

/// Rounding up has one result.
proof fn lemma_rounds_up_unique(value: u32)
    ensures
        forall|a: u32, b: u32| rounds_up_to(value, a) && rounds_up_to(value, b) ==> a == b,
{
    assert forall|a: u32, b: u32| rounds_up_to(value, a) && rounds_up_to(value, b) implies a == b by {
        if value >= 2 {
            assert(a == b) by (bit_vector)
                requires
                    a != 0 && a & ((a - 1) as u32) == 0 && a >= value && a >> 1u32 < value,
                    b != 0 && b & ((b - 1) as u32) == 0 && b >= value && b >> 1u32 < value,
            ;
        }
    }
}

/// Rounds a signed `value` up to a power of two: values below 2 stay as they
/// are.
pub fn first_greater_power_of_two(value: i32) -> (r: i32)
    requires
        value <= 0x4000_0000,
    ensures
        value < 2 ==> r == value,
        value >= 2 ==> rounds_up_to(value as u32, r as u32),
{
    if value < 2 {
        return value;
    }
    let v = value as u32;
    let u = round_up_to_power_of_two(v);
    assert(u < 0x8000_0000) by (bit_vector)
        requires
            u >> 1u32 < v,
            v <= 0x4000_0000,
    ;
    u as i32
}

/// The three magic bytes of the container: `AGT`.
pub open spec fn magic() -> Seq<u8> {
    seq![0x41u8, 0x47u8, 0x54u8]
}

/// The marker byte announcing that a mask-resize byte follows the header.
pub const RESIZE_MARKER: u8 = 0x6D;

/// A decoded texture; the payloads borrow the decoded buffer.
#[derive(Debug)]
pub struct Tgam<'a> {
    width: u16,
    height: u16,
    rgba: &'a [u8],
    mask: &'a [u8],
    mask_resize: u8,
}

/// The model of a texture.
pub struct SpecTgam {
    pub width: u16,
    pub height: u16,
    pub rgba: Seq<u8>,
    pub mask: Seq<u8>,
    pub mask_resize: u8,
}

impl<'a> View for Tgam<'a> {
    type V = SpecTgam;

    closed spec fn view(&self) -> SpecTgam {
        SpecTgam {
            width: self.width,
            height: self.height,
            rgba: self.rgba@,
            mask: self.mask@,
            mask_resize: self.mask_resize,
        }
    }
}

/// What a texture decodes to: the marker byte, the magic, width and height
/// (16 bits each), the payload and mask sizes (32 bits each), the resize
/// byte when the marker announces it (else a factor of 1), then the payload
/// and the mask.
pub open spec fn spec_decode_tgam(d: Seq<u8>) -> Result<(SpecTgam, nat), DecodeError> {
    if d.len() < 4 {
        Err(DecodeError::Truncated)
    } else if d.subrange(1, 4) != magic() {
        Err(DecodeError::BadMagic)
    } else if d.len() < 16 {
        Err(DecodeError::Truncated)
    } else {
        let ext: nat = if d[0] == RESIZE_MARKER { 1 } else { 0 };
        let o = 16 + ext;
        let rgba_size = u32_at(d, 8) as nat;
        let mask_size = u32_at(d, 12) as nat;
        if d.len() < o + rgba_size + mask_size {
            Err(DecodeError::Truncated)
        } else {
            Ok(
                (
                    SpecTgam {
                        width: u16_at(d, 4),
                        height: u16_at(d, 6),
                        rgba: d.subrange(o as int, (o + rgba_size) as int),
                        mask: d.subrange((o + rgba_size) as int, (o + rgba_size + mask_size) as int),
                        mask_resize: if ext == 1 { d[16] } else { 1 },
                    },
                    o + rgba_size + mask_size,
                ),
            )
        }
    }
}

/// A buffer whose magic is not `AGT` fails to decode with `BadMagic`.
pub proof fn lemma_bad_magic(d: Seq<u8>)
    requires
        d.len() >= 4,
        d.subrange(1, 4) != magic(),
    ensures
        spec_decode_tgam(d) == Err::<(SpecTgam, nat), DecodeError>(DecodeError::BadMagic),
{
}

/// The byte at column `col` (in bytes) of row `row` of the padded surface of
/// `t`: the stored payload, `width * 4` bytes per row, where it reaches, and
/// zero elsewhere.
pub open spec fn padded_byte(t: SpecTgam, row: int, col: int) -> u8 {
    let stride = t.width as int * 4;
    if row < t.height && col < stride && row * stride + col < t.rgba.len() {
        t.rgba[row * stride + col]
    } else {
        0
    }
}

/// A row count that the padded surface can have.
spec fn y_bound(rows: usize) -> bool {
    rows < 0x20000
}

proof fn lemma_row_offset(row: int, rows: int, col: int, stride: int)
    requires
        0 <= row < rows,
        0 <= col < stride,
    ensures
        row * stride + col < rows * stride,
        0 <= row * stride,
{
    assert(row * stride + col < rows * stride) by (nonlinear_arith)
        requires
            0 <= row < rows,
            0 <= col < stride,
    ;
    assert(0 <= row * stride) by (nonlinear_arith)
        requires
            0 <= row,
            0 <= col < stride,
    ;
}

impl<'a> Tgam<'a> {
    /// Decodes a texture from the front of `bytes`; on success also gives the
    /// number of bytes that it took.
    pub fn try_read(bytes: &'a [u8]) -> (r: Result<(Tgam<'a>, usize), DecodeError>)
        ensures
            match spec_decode_tgam(bytes@) {
                Ok((t, n)) => r is Ok && r->Ok_0.0@ == t && r->Ok_0.1 == n,
                Err(e) => r == Err::<(Tgam<'a>, usize), DecodeError>(e),
            },
    {
        if bytes.len() < 4 {
            return Err(DecodeError::Truncated);
        }
        if !(bytes[1] == 0x41 && bytes[2] == 0x47 && bytes[3] == 0x54) {
            assert(bytes@.subrange(1, 4) != magic()) by {
                if bytes@.subrange(1, 4) == magic() {
                    assert(bytes@.subrange(1, 4)[0] == bytes@[1]);
                    assert(bytes@.subrange(1, 4)[1] == bytes@[2]);
                    assert(bytes@.subrange(1, 4)[2] == bytes@[3]);
                }
            }
            return Err(DecodeError::BadMagic);
        }
        assert(bytes@.subrange(1, 4) =~= magic());
        if bytes.len() < 16 {
            return Err(DecodeError::Truncated);
        }
        let width = get_u16(bytes, 4);
        let height = get_u16(bytes, 6);
        let rgba_size = get_u32(bytes, 8) as usize;
        let mask_size = get_u32(bytes, 12) as usize;
        let (o, mask_resize): (usize, u8) = if bytes[0] == RESIZE_MARKER {
            if bytes.len() < 17 {
                return Err(DecodeError::Truncated);
            }
            (17, bytes[16])
        } else {
            (16, 1)
        };
        if bytes.len() - o < rgba_size || bytes.len() - o - rgba_size < mask_size {
            return Err(DecodeError::Truncated);
        }
        let rgba = vstd::slice::slice_subrange(bytes, o, o + rgba_size);
        let mask = vstd::slice::slice_subrange(bytes, o + rgba_size, o + rgba_size + mask_size);
        Ok((Tgam { width, height, rgba, mask, mask_resize }, o + rgba_size + mask_size))
    }

    /// The RGBA payload, as stored: `width` by `height` pixels.
    pub fn rgba(&self) -> (r: &'a [u8])
        ensures
            r@ == self@.rgba,
    {
        self.rgba
    }

    /// The auxiliary alpha mask.
    pub fn mask(&self) -> (r: &'a [u8])
        ensures
            r@ == self@.mask,
    {
        self.mask
    }

    /// The factor by which the alpha mask is scaled down.
    pub fn mask_resize(&self) -> (r: u8)
        ensures
            r == self@.mask_resize,
    {
        self.mask_resize
    }

    /// The texture surface: `width()` by `height()` RGBA pixels, holding the
    /// stored payload in its top-left corner and zeros elsewhere.
    pub fn padded_rgba(&self) -> (r: Vec<u8>)
        requires
            forall|pw: u32, ph: u32|
                #[trigger] rounds_up_to(self@.width as u32, pw) && #[trigger] rounds_up_to(
                    self@.height as u32,
                    ph,
                ) ==> pw as int * ph as int * 4 <= usize::MAX,
        ensures
            ({
                let w = self@.width as u32;
                let h = self@.height as u32;
                forall|pw: u32, ph: u32|
                    #[trigger] rounds_up_to(w, pw) && #[trigger] rounds_up_to(h, ph) ==> {
                        &&& r@.len() == pw * ph * 4
                        &&& forall|row: int, col: int|
                            0 <= row < ph && 0 <= col < pw * 4 ==> #[trigger] r@[row * (pw * 4) + col]
                                == padded_byte(self@, row, col)
                    }
            }),
    {
        let pw = self.width();
        let ph = self.height();
        let w = self.width as u32;
        let h = self.height as u32;
        proof {
            lemma_rounds_up_unique(w);
            lemma_rounds_up_unique(h);
            assert(rounds_up_to(w, pw) && rounds_up_to(h, ph));
        }
        assert(pw < 0x20000) by (bit_vector)
            requires
                w <= 0xFFFF,
                w < 2 ==> pw == w,
                w >= 2 ==> pw >> 1u32 < w,
        ;
        let stride: usize = pw as usize * 4;
        let rows: usize = ph as usize;
        assert(stride * rows <= usize::MAX) by (nonlinear_arith)
            requires
                pw as int * ph as int * 4 <= usize::MAX,
                stride == pw * 4,
                rows == ph,
        ;
        let src_stride: usize = self.width as usize * 4;
        assert(y_bound(rows)) by {
            assert(rows < 0x20000) by (bit_vector)
                requires
                    h <= 0xFFFF,
                    h < 2 ==> ph == h,
                    h >= 2 ==> ph >> 1u32 < h,
                    rows == ph,
            ;
        }
        let mut out: Vec<u8> = Vec::new();
        let mut y: usize = 0;
        while y < rows
            invariant
                stride == pw * 4,
                rows == ph,
                src_stride == self@.width * 4,
                stride * rows <= usize::MAX,
                y <= rows,
                y_bound(rows),
                out@.len() == y * stride,
                forall|row: int, col: int|
                    0 <= row < y && 0 <= col < stride ==> #[trigger] out@[row * stride + col]
                        == padded_byte(self@, row, col),
            decreases rows - y,
        {
            let mut c: usize = 0;
            assert(y * stride + stride <= stride * rows) by (nonlinear_arith)
                requires
                    y < rows,
            ;
            while c < stride
                invariant
                    stride == pw * 4,
                    rows == ph,
                    src_stride == self@.width * 4,
                    y < rows,
                    y_bound(rows),
                    y * stride + stride <= stride * rows,
                    stride * rows <= usize::MAX,
                    c <= stride,
                    out@.len() == y * stride + c,
                    forall|row: int, col: int|
                        0 <= row < y && 0 <= col < stride ==> #[trigger] out@[row * stride + col]
                            == padded_byte(self@, row, col),
                    forall|col: int| 0 <= col < c ==> #[trigger] out@[y * stride + col] == padded_byte(self@, y as int, col),
                decreases stride - c,
            {
                let ghost before = out@;
                assert(y as u64 * src_stride as u64 <= 0x20000 * 0x40000) by (nonlinear_arith)
                    requires
                        y < 0x20000,
                        src_stride < 0x40000,
                ;
                let at: u64 = y as u64 * src_stride as u64 + c as u64;
                let b: u8 = if y < self.height as usize && c < src_stride && at < self.rgba.len() as u64 {
                    self.rgba[at as usize]
                } else {
                    0
                };
                out.push(b);
                proof {
                    assert forall|row: int, col: int|
                        0 <= row < y && 0 <= col < stride implies #[trigger] out@[row * stride + col]
                            == padded_byte(self@, row, col) by {
                        lemma_row_offset(row, y as int, col, stride as int);
                        assert(out@[row * stride + col] == before[row * stride + col]);
                    }
                }
                c = c + 1;
            }
            y = y + 1;
            assert(out@.len() == y * stride) by (nonlinear_arith)
                requires
                    out@.len() == (y - 1) * stride + stride,
            ;
        }
        assert(out@.len() == pw * ph * 4) by (nonlinear_arith)
            requires
                out@.len() == rows * stride,
                stride == pw * 4,
                rows == ph,
        ;
        assert forall|pw2: u32, ph2: u32| #[trigger] rounds_up_to(w, pw2) && #[trigger] rounds_up_to(h, ph2) implies {
            &&& out@.len() == pw2 * ph2 * 4
            &&& forall|row: int, col: int|
                0 <= row < ph2 && 0 <= col < pw2 * 4 ==> #[trigger] out@[row * (pw2 * 4) + col]
                    == padded_byte(self@, row, col)
        } by {
            assert(pw2 == pw && ph2 == ph);
        }
        out
    }

    /// The width of the texture surface: the stored width rounded up to a
    /// power of two.
    pub fn width(&self) -> (r: u32)
        ensures
            rounds_up_to(self@.width as u32, r),
    {
        round_up_to_power_of_two(self.width as u32)
    }

    /// The height of the texture surface: the stored height rounded up to a
    /// power of two.
    pub fn height(&self) -> (r: u32)
        ensures
            rounds_up_to(self@.height as u32, r),
    {
        round_up_to_power_of_two(self.height as u32)
    }
}

} // verus!
