//! Decoded RGBA8 textures whose dimensions fit a 16-bit index space.

use vstd::prelude::*;

verus! {

/// Largest width or height that a texture may have.
pub const MAX_DIMENSION: u32 = 65535;

#[verifier::external_type_specification]
#[verifier::external_body]
pub struct ExDecodingError(png::DecodingError);

/// What the png codec yields for an encoded image, decoded to 8-bit
/// samples with an alpha channel: width, height, samples per pixel and the
/// sample bytes, or nothing when the image cannot be decoded.
pub uninterp spec fn png_decoded(bytes: Seq<u8>) -> Option<(u32, u32, usize, Seq<u8>)>;

/// Relies on png::Decoder with the transformations `normalize_to_color8()`
/// (`EXPAND | STRIP_16`) and `ALPHA`, then png::Reader::next_frame: every
/// image comes out with 8-bit samples as grey-with-alpha (2 samples a pixel)
/// or RGBA (4 samples a pixel), into a buffer of `output_buffer_size` bytes,
/// that is `width * samples` bytes a row for `height` rows. The header check
/// refuses a width or height of zero. The outcome depends on the input
/// bytes alone.
#[verifier::external_body]
fn decode_png(bytes: &[u8]) -> (r: Result<(u32, u32, usize, Vec<u8>), png::DecodingError>)
    ensures
        r.is_ok() == png_decoded(bytes@).is_some(),
        r matches Ok((w, h, c, d)) ==> {
            &&& png_decoded(bytes@) == Some((w, h, c, d@))
            &&& w >= 1 && h >= 1
            &&& c == 2 || c == 4
            &&& d@.len() == w * h * c
        },
{
    let mut decoder = png::Decoder::new(bytes);
    decoder.set_transformations(
        png::Transformations::normalize_to_color8() | png::Transformations::ALPHA,
    );
    let mut reader = decoder.read_info()?;
    let (width, height) = reader.info().size();
    let samples = reader.output_color_type().0.samples();
    let mut data = vec![0; reader.output_buffer_size()];
    reader.next_frame(&mut data)?;
    Ok((width, height, samples, data))
}

/// A texture of RGBA8 texels, stored row by row.
#[derive(Debug)]
pub struct TextureRGBA8 {
    pub width: u16,
    pub data: Vec<u8>,
}

#[derive(Debug)]
pub enum TextureError {
    Png(png::DecodingError),
    WidthTooLarge,
    HeightTooLarge,
}

/// Byte length of a buffer holding `width * height` RGBA8 texels.
pub open spec fn rgba8_len(width: int, height: int) -> int {
    width * height * 4
}

/// Whether a decoded image of the given size fits a texture: each dimension
/// at most 65535, and the texel buffer addressable.
pub open spec fn fits(width: u32, height: u32) -> bool {
    &&& width <= MAX_DIMENSION
    &&& height <= MAX_DIMENSION
    &&& rgba8_len(width as int, height as int) <= usize::MAX
}

/// Grey-with-alpha pixels `(g, a)` widened to RGBA texels `(g, g, g, a)`.
pub open spec fn grey_alpha_to_rgba(d: Seq<u8>) -> Seq<u8>
    decreases d.len(),
{
    if d.len() < 2 {
        seq![]
    } else {
        seq![d[0], d[0], d[0], d[1]] + grey_alpha_to_rgba(d.skip(2))
    }
}

/// The RGBA8 texels of decoded samples with `channels` samples a pixel.
pub open spec fn texture_data(channels: usize, data: Seq<u8>) -> Seq<u8> {
    if channels == 4 {
        data
    } else {
        grey_alpha_to_rgba(data)
    }
}

/// Widens grey-with-alpha samples to RGBA texels.
fn expand_grey_alpha(d: &Vec<u8>) -> (r: Vec<u8>)
    requires
        d@.len() % 2 == 0,
    ensures
        r@ == grey_alpha_to_rgba(d@),
        r@.len() == 2 * d@.len(),
{
    let mut out: Vec<u8> = Vec::new();
    let mut i: usize = 0;
    assert(d@.skip(0) =~= d@);
    assert(out@ + grey_alpha_to_rgba(d@) =~= grey_alpha_to_rgba(d@));
    while i < d.len()
        invariant
            i <= d@.len(),
            i % 2 == 0,
            d@.len() % 2 == 0,
            out@ + grey_alpha_to_rgba(d@.skip(i as int)) == grey_alpha_to_rgba(d@),
            out@.len() == 2 * i,
        decreases d.len() - i,
    {
        let ghost before = out@;
        assert(d@.skip(i as int).skip(2) =~= d@.skip(i + 2));
        let g = d[i];
        let a = d[i + 1];
        out.push(g);
        out.push(g);
        out.push(g);
        out.push(a);
        assert(out@ =~= before + seq![g, g, g, a]);
        assert(before + (seq![g, g, g, a] + grey_alpha_to_rgba(d@.skip(i + 2))) =~= out@
            + grey_alpha_to_rgba(d@.skip(i + 2)));
        i += 2;
    }
    assert(d@.skip(i as int) =~= seq![]);
    assert(out@ + seq![] =~= out@);
    out
}

impl TextureRGBA8 {
    /// The buffer holds whole rows of `width` texels, and at most 65535 rows.
    pub open spec fn wf(&self) -> bool {
        &&& self.width == 0 ==> self.data@.len() == 0
        &&& self.width > 0 ==> {
            &&& (self.data@.len() as int) % rgba8_len(self.width as int, 1) == 0
            &&& (self.data@.len() as int) / rgba8_len(self.width as int, 1) <= MAX_DIMENSION
        }
    }

    /// Number of rows of texels.
    pub open spec fn spec_height(&self) -> int {
        if self.width == 0 {
            0
        } else {
            (self.data@.len() as int) / rgba8_len(self.width as int, 1)
        }
    }

    /// Checks the dimensions of a decoded image and turns its samples into
    /// RGBA8 texels: RGBA samples are kept, grey-with-alpha ones widened. A
    /// buffer too large to address counts as too many rows.
    pub fn from_decoded(width: u32, height: u32, channels: usize, data: Vec<u8>) -> (r: Result<
        Self,
        TextureError,
    >)
        requires
            channels == 2 || channels == 4,
            data@.len() == width * height * channels,
        ensures
            width > MAX_DIMENSION <==> r matches Err(TextureError::WidthTooLarge),
            width <= MAX_DIMENSION && !fits(width, height) <==> r matches Err(
                TextureError::HeightTooLarge,
            ),
            fits(width, height) <==> r is Ok,
            r matches Ok(t) ==> {
                &&& t.wf()
                &&& t.width == width
                &&& t.data@ == texture_data(channels, data@)
                &&& t.data@.len() == rgba8_len(width as int, height as int)
                &&& width > 0 ==> t.spec_height() == height
            },
    {
        if width > MAX_DIMENSION {
            return Err(TextureError::WidthTooLarge);
        }
        if height > MAX_DIMENSION {
            return Err(TextureError::HeightTooLarge);
        }
        let w = width as u64;
        let h = height as u64;
        assert(w * h <= 65535 * 65535) by (nonlinear_arith)
            requires
                w <= 65535,
                h <= 65535,
        ;
        let n64: u64 = w * h * 4;
        if n64 > usize::MAX as u64 {
            return Err(TextureError::HeightTooLarge);
        }
        let ghost wh = width * height;
        assert(width * height * channels == wh * channels) by (nonlinear_arith)
            requires
                wh == width * height,
        ;
        assert(rgba8_len(width as int, height as int) == wh * 4) by (nonlinear_arith)
            requires
                wh == width * height,
        ;
        let texels = if channels == 4 {
            data
        } else {
            assert(data@.len() % 2 == 0) by (nonlinear_arith)
                requires
                    data@.len() == wh * 2,
            ;
            expand_grey_alpha(&data)
        };
        let t = TextureRGBA8 { width: width as u16, data: texels };
        proof {
            if width == 0 {
                assert(rgba8_len(width as int, height as int) == 0) by (nonlinear_arith)
                    requires
                        width == 0,
                ;
            } else {
                assert(rgba8_len(width as int, height as int) == height * rgba8_len(
                    width as int,
                    1,
                )) by (nonlinear_arith);
                assert(rgba8_len(width as int, 1) > 0);
                vstd::arithmetic::div_mod::lemma_fundamental_div_mod_converse(
                    t.data@.len() as int,
                    rgba8_len(width as int, 1),
                    height as int,
                    0,
                );
            }
        }
        Ok(t)
    }

    /// Decodes a png image into a texture of RGBA8 texels.
    pub fn new_from_png(bytes: &[u8]) -> (r: Result<Self, TextureError>)
        ensures
            png_decoded(bytes@) is None <==> r matches Err(TextureError::Png(_)),
            png_decoded(bytes@) matches Some((w, h, c, d)) ==> {
                &&& (w > MAX_DIMENSION <==> r matches Err(TextureError::WidthTooLarge))
                &&& (w <= MAX_DIMENSION && !fits(w, h) <==> r matches Err(
                    TextureError::HeightTooLarge,
                ))
                &&& (r matches Ok(t) ==> {
                    &&& t.wf()
                    &&& t.width == w
                    &&& t.data@ == texture_data(c, d)
                    &&& t.data@.len() == rgba8_len(w as int, h as int)
                    &&& t.spec_height() == h
                })
                &&& (fits(w, h) <==> r is Ok)
            },
    {
        match decode_png(bytes) {
            Err(e) => Err(TextureError::Png(e)),
            Ok((w, h, c, d)) => Self::from_decoded(w, h, c, d),
        }
    }

    /// Number of rows of texels: the buffer length divided by four bytes a
    /// texel and by the width.
    pub fn height(&self) -> (r: u16)
        requires
            self.wf(),
        ensures
            r == self.spec_height(),
            self.width > 0 ==> r == (self.data@.len() as int) / 4 / (self.width as int),
    {
        if self.width == 0 {
            return 0;
        }
        let w = self.width as usize;
        proof {
            vstd::arithmetic::div_mod::lemma_div_denominator(
                self.data@.len() as int,
                4,
                w as int,
            );
        }
        (self.data.len() / 4 / w) as u16
    }
}

} // verus!
