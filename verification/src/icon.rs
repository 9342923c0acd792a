//! Decoding a QOI-encoded icon into a premultiplied ARGB bitmap.
//!
//! The QOI byte stream is decoded by the `rapid_qoi` crate behind one
//! trusted wrapper; everything after the call — channel layout, alpha
//! premultiplication, dimension checks — is verified code.

use crate::canvas::is_premul;
use crate::ui::Bitmap;
use crate::Error;
use vstd::arithmetic::div_mod::{lemma_div_is_ordered, lemma_div_multiples_vanish};
use vstd::prelude::*;

verus! {

/// What `rapid_qoi` decodes from a QOI byte stream: `None` when the stream
/// is rejected, else (width, height, channels, raw pixel bytes). Decoding
/// depends on the bytes alone.
pub uninterp spec fn qoi_decoded(bytes: Seq<u8>) -> Option<(u32, u32, u8, Seq<u8>)>;

/// The big-endian 32-bit integer at offset `i`; a QOI header stores the
/// image width at offset 4 and the height at offset 8.
pub open spec fn be32_at(s: Seq<u8>, i: int) -> int {
    s[i] * 0x1000000 + s[i + 1] * 0x10000 + s[i + 2] * 0x100 + s[i + 3]
}

/// Relies on rapid_qoi's `Qoi::decode_alloc`: it decodes a QOI stream into a
/// vector of exactly width · height pixels of `channels` bytes each, where
/// the dimensions and `channels` (3 or 4) come from the stream's 14-byte
/// header, and its result is a function of the input bytes alone. The bound
/// on the header's declared dimensions keeps the decoder's internal size
/// computation within machine range; callers screen the header first.
#[verifier::external_body]
fn qoi_decode(bytes: &[u8]) -> (r: Result<(u32, u32, u8, Vec<u8>), ()>)
    requires
        bytes@.len() >= 14 ==> be32_at(bytes@, 4) <= 512 && be32_at(bytes@, 8) <= 512,
    ensures
        match r {
            Ok((w, h, c, pix)) => qoi_decoded(bytes@) == Some((w, h, c, pix@)) && pix@.len()
                == w as int * h as int * c as int && (c == 3 || c == 4) && bytes@.len() >= 14
                && w as int == be32_at(bytes@, 4) && h as int == be32_at(bytes@, 8),
            Err(_) => qoi_decoded(bytes@) is None,
        },
{
    match rapid_qoi::Qoi::decode_alloc(bytes) {
        Ok((qoi, pix)) => Ok((qoi.width, qoi.height, qoi.colors.channels() as u8, pix)),
        Err(_) => Err(()),
    }
}

/// Reads the big-endian 32-bit integer at offset `i`.
fn read_be32(b: &[u8], i: usize) -> (r: u32)
    requires
        i + 4 <= b@.len(),
    ensures
        r as int == be32_at(b@, i as int),
{
    (b[i] as u32) * 0x1000000 + (b[i + 1] as u32) * 0x10000 + (b[i + 2] as u32) * 0x100 + (b[i
        + 3] as u32)
}

/// One premultiplied color channel: `v` scaled by alpha.
pub open spec fn premul_chan(v: u8, a: u8) -> u32 {
    ((v as int * a as int) / 255) as u32
}

/// The premultiplied ARGB pixel built from RGBA channel bytes.
pub open spec fn premul_px(r: u8, g: u8, b: u8, a: u8) -> u32 {
    ((a as u32) << 24) | (premul_chan(r, a) << 16) | (premul_chan(g, a) << 8) | premul_chan(b, a)
}

/// Pixel `k` of a decoded icon: the premultiplied form of the `k`-th RGBA
/// (or opaque RGB) pixel of the raw decoder output.
pub open spec fn icon_px(pix: Seq<u8>, c: int, k: int) -> u32 {
    if c == 4 {
        premul_px(pix[4 * k], pix[4 * k + 1], pix[4 * k + 2], pix[4 * k + 3])
    } else {
        premul_px(pix[3 * k], pix[3 * k + 1], pix[3 * k + 2], 255u8)
    }
}

/// Builds one premultiplied pixel from RGBA bytes.
fn premul_pixel(rb: u8, gb: u8, bb: u8, ab: u8) -> (p: u32)
    ensures
        p == premul_px(rb, gb, bb, ab),
        is_premul(p),
{
    let a: u32 = ab as u32;
    proof {
        assert(rb as int * ab as int <= 65025 && gb as int * ab as int <= 65025 && bb as int
            * ab as int <= 65025) by (nonlinear_arith)
            requires
                rb as int <= 255 && gb as int <= 255 && bb as int <= 255 && 0 <= ab as int <= 255,
        ;
    }
    let r: u32 = (rb as u32) * a / 255;
    let g: u32 = (gb as u32) * a / 255;
    let b: u32 = (bb as u32) * a / 255;
    proof {
        lemma_premul_chan_le(rb, ab);
        lemma_premul_chan_le(gb, ab);
        lemma_premul_chan_le(bb, ab);
    }
    let p = (a << 24) | (r << 16) | (g << 8) | b;
    proof {
        assert((((a << 24) | (r << 16) | (g << 8) | b) >> 24) == a && ((((a << 24) | (r << 16) | (g
            << 8) | b) >> 16) & 0xff) == r && ((((a << 24) | (r << 16) | (g << 8) | b) >> 8) & 0xff)
            == g && (((a << 24) | (r << 16) | (g << 8) | b) & 0xff) == b) by (bit_vector)
            requires
                a < 256 && r <= a && g <= a && b <= a,
        ;
    }
    p
}

/// A channel scaled by alpha never exceeds alpha.
proof fn lemma_premul_chan_le(v: u8, a: u8)
    ensures
        premul_chan(v, a) <= a,
        premul_chan(v, a) == v as int * a as int / 255,
{
    assert(v as int * a as int <= 255 * a as int) by (nonlinear_arith)
        requires
            v as int <= 255 && a as int >= 0,
    ;
    lemma_div_is_ordered(v as int * a as int, 255 * a as int, 255);
    lemma_div_multiples_vanish(a as int, 255);
}

/// Decodes a QOI icon into a premultiplied ARGB bitmap.
///
/// Succeeds exactly when the decoder accepts the stream and its dimensions
/// fit a dialog icon (1 to 512 pixels a side); every pixel of the result is
/// the premultiplied form of the decoder's RGBA (or opaque RGB) output.
pub fn decode_icon(bytes: &[u8]) -> (r: Result<Bitmap, Error>)
    ensures
        match r {
            Ok(bm) => {
                &&& bm.wf()
                &&& qoi_decoded(bytes@) matches Some((w, h, c, pix)) && bm.width == w && bm.height
                    == h && 1 <= w <= 512 && 1 <= h <= 512 && (forall|k: int|
                    0 <= k < w as int * h as int ==> bm.data@[k] == icon_px(pix, c as int, k))
            },
            Err(e) => {
                &&& e == Error::InvalidImage
                &&& ((bytes@.len() >= 14 && !(be32_at(bytes@, 4) <= 512 && be32_at(bytes@, 8)
                    <= 512)) || match qoi_decoded(bytes@) {
                    Some((w, h, c, pix)) => !(1 <= w <= 512 && 1 <= h <= 512),
                    None => true,
                })
            },
        },
{
    if bytes.len() >= 14 {
        let w0 = read_be32(bytes, 4);
        let h0 = read_be32(bytes, 8);
        if w0 > 512 || h0 > 512 {
            return Err(Error::InvalidImage);
        }
    }
    let (w, h, c, pix) = match qoi_decode(bytes) {
        Ok(t) => t,
        Err(_) => {
            return Err(Error::InvalidImage);
        },
    };
    if w < 1 || w > 512 || h < 1 || h > 512 {
        return Err(Error::InvalidImage);
    }
    proof {
        assert(w as int * h as int <= 512 * 512 && w as int * h as int * c as int <= 512 * 512
            * 4) by (nonlinear_arith)
            requires
                1 <= w as int <= 512 && 1 <= h as int <= 512 && 0 <= c as int <= 4,
        ;
    }
    let n: usize = (w as usize) * (h as usize);
    let cu: usize = c as usize;
    let pl: usize = pix.len();
    let mut data: Vec<u32> = Vec::new();
    let mut k: usize = 0;
    while k < n
        invariant
            0 <= k <= n,
            n == w as int * h as int,
            cu == c as int,
            c == 3 || c == 4,
            pix@.len() == w as int * h as int * c as int,
            n * cu == pix@.len(),
            pl == pix@.len(),
            data@.len() == k,
            forall|j: int| 0 <= j < k ==> data@[j] == icon_px(pix@, c as int, j),
            forall|j: int| 0 <= j < k ==> is_premul(data@[j]),
        decreases n - k,
    {
        proof {
            assert(k * cu + cu <= n * cu) by (nonlinear_arith)
                requires
                    0 <= k < n && cu > 0,
            ;
            assert(k * cu + cu <= pl);
        }
        let base: usize = k * cu;
        let rb = pix[base];
        let gb = pix[base + 1];
        let bb = pix[base + 2];
        let ab = if cu == 4 {
            pix[base + 3]
        } else {
            255
        };
        let p = premul_pixel(rb, gb, bb, ab);
        data.push(p);
        k += 1;
    }
    let bm = Bitmap { width: w, height: h, data };
    Ok(bm)
}

} // verus!
