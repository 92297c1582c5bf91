//! Stride-dispersed LSB steganography on RGBA8 pixel buffers.
//!
//! A carrier's colour channels are numbered in pixel order, three per pixel
//! (R, G, B; alpha is never touched). The 64-bit little-endian payload length
//! is written, least significant bit first, into the low bit of every 13th
//! channel among the first 832. The payload bits (least significant bit of
//! each byte first) then go into channels 832, 832 + s, 832 + 2s, ..., where
//! the stride s is the number of remaining channels divided by the number of
//! payload bits.

use vstd::prelude::*;
use vstd::arithmetic::div_mod::{
    lemma_fundamental_div_mod, lemma_fundamental_div_mod_converse_div,
    lemma_fundamental_div_mod_converse_mod,
};
use crate::primitives::{decode_image_rgba, decoded_rgba};
use crate::text::str_chars;
use vstd::string::StringExecFns;

verus! {

/// Channels used by the header: 64 bits, one every 13 channels.
pub const HEADER_CHANNELS: u64 = 832;

/// Distance between two header channels.
pub const HEADER_STRIDE: u64 = 13;

/// An RGBA8 image: four bytes per pixel, rows top to bottom.
pub struct RgbaImage {
    pub width: u32,
    pub height: u32,
    pub pixels: Vec<u8>,
}

impl RgbaImage {
    /// The pixel buffer holds exactly four bytes per pixel.
    pub open spec fn wf(&self) -> bool {
        self.pixels@.len() == self.width * self.height * 4
    }

    /// Number of colour channels (R, G, B of every pixel).
    pub open spec fn total_channels(&self) -> int {
        self.width * self.height * 3
    }
}

/// Why an injection or extraction was refused.
#[derive(Debug, Clone, Copy, PartialEq, Eq)]
pub enum StegoError {
    /// The carrier path does not name a .png or .bmp file.
    LossyCarrier,
    /// Injection: the carrier has no more than 832 channels.
    CarrierTooSmall,
    /// Injection: the payload has more bits than the channels left after the header.
    CapacityExceeded,
    /// Extraction: the image has no more than 832 channels.
    HeaderMissing,
    /// Extraction: the header holds a length of zero or one that does not fit.
    InvalidPayloadSize,
}

impl StegoError {
    /// The message the command line shows for this error.
    pub open spec fn spec_message(&self) -> Seq<char> {
        match self {
            StegoError::LossyCarrier => "Carrier must be a lossless format (.png or .bmp) to prevent key corruption."@,
            StegoError::CarrierTooSmall => "Carrier image is microscopically too small even for the stego header."@,
            StegoError::CapacityExceeded => "Carrier image capacity exceeded. Use a higher resolution photo."@,
            StegoError::HeaderMissing => "Invalid stego carrier: Too small to contain header."@,
            StegoError::InvalidPayloadSize => "Stego extraction failed: Invalid payload size in header (corrupted or not a stego file)."@,
        }
    }

    /// The message the command line shows for this error.
    pub fn message(&self) -> (s: &'static str)
        ensures
            s@ == self.spec_message(),
    {
        match self {
            StegoError::LossyCarrier => "Carrier must be a lossless format (.png or .bmp) to prevent key corruption.",
            StegoError::CarrierTooSmall => "Carrier image is microscopically too small even for the stego header.",
            StegoError::CapacityExceeded => "Carrier image capacity exceeded. Use a higher resolution photo.",
            StegoError::HeaderMissing => "Invalid stego carrier: Too small to contain header.",
            StegoError::InvalidPayloadSize => "Stego extraction failed: Invalid payload size in header (corrupted or not a stego file).",
        }
    }
}

/// Byte offset, in an RGBA8 buffer, of colour channel `c`.
pub open spec fn channel_byte(c: int) -> int {
    4 * (c / 3) + c % 3
}

/// `v` with its least significant bit replaced by `b` (0 or 1).
pub open spec fn set_lsb(v: u8, b: u8) -> u8 {
    (v & 0xFEu8) | b
}

/// Bit `k` of the payload length.
pub open spec fn header_bit(len: u64, k: int) -> u8 {
    ((len >> (k as u64)) & 1u64) as u8
}

/// Bit `j` of the payload, least significant bit of each byte first.
pub open spec fn payload_bit(p: Seq<u8>, j: int) -> u8 {
    (p[j / 8] >> ((j % 8) as u8)) & 1u8
}

/// Payload stride for `nbits` payload bits in a carrier of `total` channels.
pub open spec fn payload_stride(total: int, nbits: int) -> int {
    (total - HEADER_CHANNELS) / nbits
}

/// The value that channel `c` holds after injecting `payload` (whose stride
/// is `stride`) into a carrier where it held `old`.
pub open spec fn injected_channel(old: u8, c: int, payload: Seq<u8>, stride: int) -> u8 {
    if c < HEADER_CHANNELS {
        if c % 13 == 0 {
            set_lsb(old, header_bit(payload.len() as u64, c / 13))
        } else {
            old
        }
    } else if (c - HEADER_CHANNELS) % stride == 0 && (c - HEADER_CHANNELS) / stride < 8
        * payload.len() {
        set_lsb(old, payload_bit(payload, (c - HEADER_CHANNELS) / stride))
    } else {
        old
    }
}

/// The carrier can hold `payload`: more than 832 channels, and at least one
/// channel left per payload bit.
pub open spec fn can_hold(img: RgbaImage, payload: Seq<u8>) -> bool {
    img.total_channels() > HEADER_CHANNELS && img.total_channels() - HEADER_CHANNELS >= 8
        * payload.len()
}

/// `out` is `img` with `payload` injected.
pub open spec fn is_injection(img: RgbaImage, payload: Seq<u8>, out: RgbaImage) -> bool {
    let stride = payload_stride(img.total_channels(), 8 * payload.len() as int);
    &&& out.width == img.width
    &&& out.height == img.height
    &&& out.pixels@.len() == img.pixels@.len()
    &&& forall|c: int|
        0 <= c < img.total_channels() ==> #[trigger] out.pixels@[channel_byte(c)]
            == injected_channel(img.pixels@[channel_byte(c)], c, payload, stride)
    &&& forall|p: int|
        0 <= p < img.width * img.height ==> #[trigger] out.pixels@[4 * p + 3] == img.pixels@[4
            * p + 3]
}

/// Low bit of channel `c`.
pub open spec fn lsb_at(px: Seq<u8>, c: int) -> u8 {
    px[channel_byte(c)] & 1u8
}

/// The length assembled from the low bits of the first `k` header channels.
pub open spec fn header_value(px: Seq<u8>, k: nat) -> u64
    decreases k,
{
    if k == 0 {
        0
    } else {
        header_value(px, (k - 1) as nat) | ((lsb_at(px, 13 * (k - 1)) as u64) << ((k - 1) as u64))
    }
}

/// Byte `i` of the payload assembled from the low bits of its first `k` bit
/// channels.
pub open spec fn payload_byte(px: Seq<u8>, stride: int, i: int, k: nat) -> u8
    decreases k,
{
    if k == 0 {
        0
    } else {
        payload_byte(px, stride, i, (k - 1) as nat) | (lsb_at(
            px,
            HEADER_CHANNELS + (8 * i + k - 1) * stride,
        ) << ((k - 1) as u8))
    }
}

/// What extraction finds in a `w` by `h` RGBA8 buffer `px`.
pub open spec fn spec_extract(w: u32, h: u32, px: Seq<u8>) -> Result<Seq<u8>, StegoError> {
    let total = w * h * 3;
    if total <= HEADER_CHANNELS {
        Err(StegoError::HeaderMissing)
    } else {
        let len = header_value(px, 64);
        let nbits = 8 * len;
        if nbits == 0 || total - HEADER_CHANNELS < nbits {
            Err(StegoError::InvalidPayloadSize)
        } else {
            let stride = payload_stride(total, nbits);
            Ok(Seq::new(len as nat, |i: int| payload_byte(px, stride, i, 8)))
        }
    }
}


// ─── Injection ───────────────────────────────────────────────────

/// Channel `c` after the header loop has written the first `k` header bits.
pub open spec fn header_written(old: Seq<u8>, c: int, len: u64, k: int) -> u8 {
    if c < 13 * k && c % 13 == 0 {
        set_lsb(old[channel_byte(c)], header_bit(len, c / 13))
    } else {
        old[channel_byte(c)]
    }
}

/// Channel `c` after the payload loop has written the first `j` payload bits.
pub open spec fn payload_written(old: Seq<u8>, c: int, payload: Seq<u8>, stride: int, j: int) -> u8 {
    if c < HEADER_CHANNELS {
        header_written(old, c, payload.len() as u64, 64)
    } else if (c - HEADER_CHANNELS) % stride == 0 && (c - HEADER_CHANNELS) / stride < j {
        set_lsb(old[channel_byte(c)], payload_bit(payload, (c - HEADER_CHANNELS) / stride))
    } else {
        old[channel_byte(c)]
    }
}

proof fn lemma_npix_bounds(w: u32, h: u32, len: int)
    requires
        len == w * h * 4,
        len <= usize::MAX,
    ensures
        w * h * 3 <= u64::MAX,
        w * h * 3 < len || w * h == 0,
        0 <= w * h,
{
    assert(0 <= w * h) by (nonlinear_arith);
}

/// Injects `payload` into a copy of `img`: the 64-bit length header into every
/// 13th channel of the first 832, then the payload bits `stride` channels
/// apart. Fails, leaving nothing written, when the carrier has no more than
/// 832 channels or fewer remaining channels than payload bits.
pub fn inject_lsb_image(img: &RgbaImage, payload: &[u8]) -> (r: Result<RgbaImage, StegoError>)
    requires
        img.wf(),
        payload@.len() > 0,
        payload@.len() * 8 <= u64::MAX,
    ensures
        match r {
            Ok(out) => can_hold(*img, payload@) && is_injection(*img, payload@, out) && out.wf(),
            Err(e) => !can_hold(*img, payload@) && (e == StegoError::CarrierTooSmall
                <==> img.total_channels() <= HEADER_CHANNELS) && (e == StegoError::CapacityExceeded
                <==> img.total_channels() > HEADER_CHANNELS),
        },
{
    let plen = img.pixels.len();
    proof {
        lemma_npix_bounds(img.width, img.height, plen as int);
    }
    let npix: u64 = (img.width as u64) * (img.height as u64);
    let total: u64 = npix * 3;
    if total <= HEADER_CHANNELS {
        return Err(StegoError::CarrierTooSmall);
    }
    let len: u64 = payload.len() as u64;
    let nbits: u64 = len * 8;
    let remaining: u64 = total - HEADER_CHANNELS;
    if remaining < nbits {
        return Err(StegoError::CapacityExceeded);
    }
    let stride: u64 = remaining / nbits;
    let ghost old = img.pixels@;
    let mut px = img.pixels.clone();
    assert(px@ =~= old);
    let mut k: u64 = 0;
    while k < 64
        invariant
            k <= 64,
            px@.len() == old.len(),
            old.len() == npix * 4,
            total == npix * 3,
            total > HEADER_CHANNELS,
            forall|c: int|
                0 <= c < total ==> #[trigger] px@[channel_byte(c)] == header_written(old, c, len, k as int),
            forall|p: int| 0 <= p < npix ==> #[trigger] px@[4 * p + 3] == old[4 * p + 3],
        decreases 64 - k,
    {
        let c: u64 = 13 * k;
        let i: usize = (4 * (c / 3) + c % 3) as usize;
        proof {
            lemma_channel_byte_bounds(c as int, npix as int);
        }
        let bit: u8 = ((len >> k) & 1u64) as u8;
        let v = (px[i] & 0xFEu8) | bit;
        let ghost before = px@;
        px.set(i, v);
        proof {
            assert forall|cc: int| 0 <= cc < total implies #[trigger] px@[channel_byte(cc)]
                == header_written(old, cc, len, (k + 1) as int) by {
                if cc != c {
                    lemma_channel_byte_injective(cc, c as int);
                    assert(px@[channel_byte(cc)] == before[channel_byte(cc)]);
                }
            }
            assert forall|p: int| 0 <= p < npix implies #[trigger] px@[4 * p + 3] == old[4 * p + 3] by {
                lemma_not_alpha(c as int, p);
                assert(px@[4 * p + 3] == before[4 * p + 3]);
            }
        }
        k = k + 1;
    }
    proof {
        lemma_slot_in_range(0, nbits as int, remaining as int);
    }
    let mut j: u64 = 0;
    while j < nbits
        invariant
            j <= nbits,
            stride >= 1,
            old.len() <= usize::MAX,
            nbits == 8 * payload@.len(),
            nbits > 0,
            len == payload@.len(),
            remaining == total - HEADER_CHANNELS,
            nbits <= remaining,
            stride == remaining / nbits,
            px@.len() == old.len(),
            old.len() == npix * 4,
            total == npix * 3,
            total > HEADER_CHANNELS,
            forall|c: int|
                0 <= c < total ==> #[trigger] px@[channel_byte(c)] == payload_written(old, c, payload@, stride as int, j as int),
            forall|p: int| 0 <= p < npix ==> #[trigger] px@[4 * p + 3] == old[4 * p + 3],
        decreases nbits - j,
    {
        proof {
            lemma_slot_in_range(j as int, nbits as int, remaining as int);
        }
        let c: u64 = HEADER_CHANNELS + j * stride;
        let i: usize = (4 * (c / 3) + c % 3) as usize;
        proof {
            lemma_channel_byte_bounds(c as int, npix as int);
        }
        assert(j / 8 < payload@.len());
        let byte = payload[(j / 8) as usize];
        let bit: u8 = (byte >> ((j % 8) as u8)) & 1u8;
        let v = (px[i] & 0xFEu8) | bit;
        let ghost before = px@;
        px.set(i, v);
        proof {
            lemma_payload_slot(c as int, stride as int, j as int);
            assert forall|cc: int| 0 <= cc < total implies #[trigger] px@[channel_byte(cc)]
                == payload_written(old, cc, payload@, stride as int, (j + 1) as int) by {
                if cc != c {
                    lemma_channel_byte_injective(cc, c as int);
                    assert(px@[channel_byte(cc)] == before[channel_byte(cc)]);
                    if cc >= HEADER_CHANNELS {
                        lemma_payload_slot(cc, stride as int, j as int);
                    }
                }
            }
            assert forall|p: int| 0 <= p < npix implies #[trigger] px@[4 * p + 3] == old[4 * p + 3] by {
                lemma_not_alpha(c as int, p);
                assert(px@[4 * p + 3] == before[4 * p + 3]);
            }
        }
        j = j + 1;
    }
    let out = RgbaImage { width: img.width, height: img.height, pixels: px };
    proof {
        assert forall|c: int| 0 <= c < img.total_channels() implies #[trigger] out.pixels@[channel_byte(c)]
            == injected_channel(old[channel_byte(c)], c, payload@, payload_stride(img.total_channels(), 8 * payload@.len() as int)) by {
            assert(px@[channel_byte(c)] == payload_written(old, c, payload@, stride as int, nbits as int));
        }
    }
    Ok(out)
}


// ─── Extraction ──────────────────────────────────────────────────

/// Reads the length header and the payload out of `img`. Fails when the
/// image has no more than 832 channels, or the header holds zero or a length
/// whose bits do not fit in the channels after the header.
pub fn extract_lsb_from_image(img: &RgbaImage) -> (r: Result<Vec<u8>, StegoError>)
    requires
        img.wf(),
    ensures
        match r {
            Ok(v) => spec_extract(img.width, img.height, img.pixels@) == Ok::<Seq<u8>, StegoError>(v@),
            Err(e) => spec_extract(img.width, img.height, img.pixels@) == Err::<Seq<u8>, StegoError>(e),
        },
{
    let plen = img.pixels.len();
    proof {
        lemma_npix_bounds(img.width, img.height, plen as int);
    }
    let npix: u64 = (img.width as u64) * (img.height as u64);
    let total: u64 = npix * 3;
    if total <= HEADER_CHANNELS {
        return Err(StegoError::HeaderMissing);
    }
    let px = &img.pixels;
    let mut len: u64 = 0;
    let mut k: u64 = 0;
    while k < 64
        invariant
            k <= 64,
            px@ == img.pixels@,
            px@.len() == npix * 4,
            total == npix * 3,
            total > HEADER_CHANNELS,
            len == header_value(px@, k as nat),
        decreases 64 - k,
    {
        let c: u64 = 13 * k;
        proof {
            lemma_channel_byte_bounds(c as int, npix as int);
        }
        let i: usize = (4 * (c / 3) + c % 3) as usize;
        len = len | (((px[i] & 1u8) as u64) << k);
        k = k + 1;
    }
    let remaining: u64 = total - HEADER_CHANNELS;
    let nbits: u64 = match len.checked_mul(8) {
        Some(n) => n,
        None => {
            return Err(StegoError::InvalidPayloadSize);
        },
    };
    if nbits == 0 || remaining < nbits {
        return Err(StegoError::InvalidPayloadSize);
    }
    let stride: u64 = remaining / nbits;
    proof {
        lemma_slot_in_range(0, nbits as int, remaining as int);
    }
    let count: usize = len as usize;
    let mut out: Vec<u8> = Vec::with_capacity(count);
    let mut i: usize = 0;
    while i < count
        invariant
            i <= count,
            count == len,
            nbits == 8 * len,
            nbits > 0,
            nbits <= remaining,
            remaining == total - HEADER_CHANNELS,
            stride == remaining / nbits,
            stride >= 1,
            px@ == img.pixels@,
            px@.len() == npix * 4,
            px@.len() <= usize::MAX,
            total == npix * 3,
            out@ =~= Seq::new(i as nat, |t: int| payload_byte(px@, stride as int, t, 8)),
        decreases count - i,
    {
        let mut byte: u8 = 0;
        let mut b: u8 = 0;
        while b < 8
            invariant
                b <= 8,
                i < count,
                count == len,
                nbits == 8 * len,
                nbits <= remaining,
                remaining == total - HEADER_CHANNELS,
                stride == remaining / nbits,
                stride >= 1,
                px@ == img.pixels@,
                px@.len() == npix * 4,
                px@.len() <= usize::MAX,
                total == npix * 3,
                byte == payload_byte(px@, stride as int, i as int, b as nat),
            decreases 8 - b,
        {
            let slot: u64 = 8 * (i as u64) + (b as u64);
            proof {
                lemma_slot_in_range(slot as int, nbits as int, remaining as int);
            }
            let c: u64 = HEADER_CHANNELS + slot * stride;
            proof {
                lemma_channel_byte_bounds(c as int, npix as int);
            }
            let idx: usize = (4 * (c / 3) + c % 3) as usize;
            byte = byte | ((px[idx] & 1u8) << b);
            b = b + 1;
        }
        out.push(byte);
        i = i + 1;
    }
    Ok(out)
}

/// The error text for a carrier that the image crate cannot decode.
pub open spec fn undecodable_message(detail: Seq<char>) -> Seq<char> {
    "Failed to decode stego carrier from memory: "@ + detail
}

/// Decodes an encoded carrier (PNG, BMP) held in memory and extracts the
/// hidden payload from it.
pub fn extract_lsb_from_memory(image_data: &[u8]) -> (r: Result<Vec<u8>, String>)
    ensures
        match decoded_rgba(image_data@) {
            Err(detail) => r matches Err(m) && m@ == undecodable_message(detail),
            Ok((w, h, px)) => match spec_extract(w, h, px) {
                Ok(v) => r matches Ok(out) && out@ == v,
                Err(e) => r matches Err(m) && m@ == e.spec_message(),
            },
        },
{
    match decode_image_rgba(image_data) {
        Err(detail) => {
            let prefix = String::from_str("Failed to decode stego carrier from memory: ");
            Err(prefix.concat(detail.as_str()))
        },
        Ok((width, height, pixels)) => {
            let img = RgbaImage { width, height, pixels };
            match extract_lsb_from_image(&img) {
                Ok(v) => Ok(v),
                Err(e) => Err(String::from_str(e.message())),
            }
        },
    }
}


// ─── Round trip ──────────────────────────────────────────────────

proof fn lemma_header_reads_back(img: RgbaImage, payload: Seq<u8>, out: RgbaImage, k: nat)
    requires
        img.wf(),
        0 < payload.len(),
        payload.len() * 8 <= u64::MAX,
        can_hold(img, payload),
        is_injection(img, payload, out),
        k <= 64,
    ensures
        k < 64 ==> header_value(out.pixels@, k) == (payload.len() as u64) & (((1u64 << (k as u64))
            - 1u64) as u64),
        k == 64 ==> header_value(out.pixels@, k) == payload.len() as u64,
    decreases k,
{
    let len = payload.len() as u64;
    if k == 0 {
        lemma_mask_zero_u64(len);
    } else {
        let kk = (k - 1) as nat;
        lemma_header_reads_back(img, payload, out, kk);
        let c = (13 * kk) as int;
        assert(c < img.total_channels());
        let stride = payload_stride(img.total_channels(), 8 * payload.len() as int);
        assert(out.pixels@[channel_byte(c)] == injected_channel(
            img.pixels@[channel_byte(c)],
            c,
            payload,
            stride,
        ));
        assert(c / 13 == kk);
        lemma_header_bit_small(len, kk as int);
        lemma_set_lsb_bit(img.pixels@[channel_byte(c)], header_bit(len, kk as int));
        assert(lsb_at(out.pixels@, c) == header_bit(len, kk as int));
        lemma_u64_bits_step(len, header_value(out.pixels@, kk), kk as u64);
    }
}

proof fn lemma_byte_reads_back(
    img: RgbaImage,
    payload: Seq<u8>,
    out: RgbaImage,
    i: int,
    b: nat,
)
    requires
        img.wf(),
        0 < payload.len(),
        payload.len() * 8 <= u64::MAX,
        can_hold(img, payload),
        is_injection(img, payload, out),
        0 <= i < payload.len(),
        b <= 8,
    ensures
        ({
            let stride = payload_stride(img.total_channels(), 8 * payload.len() as int);
            &&& b < 8 ==> payload_byte(out.pixels@, stride, i, b) == payload[i] & (((1u8 << (b
                as u8)) - 1u8) as u8)
            &&& b == 8 ==> payload_byte(out.pixels@, stride, i, b) == payload[i]
        }),
    decreases b,
{
    let stride = payload_stride(img.total_channels(), 8 * payload.len() as int);
    if b == 0 {
        lemma_mask_zero_u8(payload[i]);
    } else {
        let bb = (b - 1) as nat;
        lemma_byte_reads_back(img, payload, out, i, bb);
        let nbits = 8 * payload.len() as int;
        let remaining = img.total_channels() - HEADER_CHANNELS;
        let j = 8 * i + bb as int;
        lemma_slot_in_range(j, nbits, remaining);
        let c = HEADER_CHANNELS + j * stride;
        assert(c < img.total_channels());
        lemma_payload_slot(c, stride, j);
        assert(out.pixels@[channel_byte(c)] == injected_channel(
            img.pixels@[channel_byte(c)],
            c,
            payload,
            stride,
        ));
        assert(j / 8 == i && j % 8 == bb);
        lemma_payload_bit_small(payload, j);
        lemma_set_lsb_bit(img.pixels@[channel_byte(c)], payload_bit(payload, j));
        assert(lsb_at(out.pixels@, c) == payload_bit(payload, j));
        lemma_u8_bits_step(payload[i], payload_byte(out.pixels@, stride, i, bb), bb as u8);
    }
}

/// Extracting from an image into which a payload was injected gives back
/// exactly that payload.
pub proof fn lemma_inject_extract_roundtrip(img: RgbaImage, payload: Seq<u8>, out: RgbaImage)
    requires
        img.wf(),
        0 < payload.len(),
        payload.len() * 8 <= u64::MAX,
        can_hold(img, payload),
        is_injection(img, payload, out),
    ensures
        spec_extract(out.width, out.height, out.pixels@) == Ok::<Seq<u8>, StegoError>(payload),
{
    lemma_header_reads_back(img, payload, out, 64);
    let stride = payload_stride(img.total_channels(), 8 * payload.len() as int);
    let got = Seq::new(payload.len(), |i: int| payload_byte(out.pixels@, stride, i, 8));
    assert forall|i: int| 0 <= i < payload.len() implies got[i] == payload[i] by {
        lemma_byte_reads_back(img, payload, out, i, 8);
    }
    assert(got =~= payload);
}

// ─── Arithmetic facts about channel positions ────────────────────

proof fn lemma_channel_byte_bounds(c: int, npix: int)
    requires
        0 <= c < 3 * npix,
    ensures
        0 <= channel_byte(c) < 4 * npix,
        channel_byte(c) % 4 != 3,
{
}

proof fn lemma_channel_byte_injective(c1: int, c2: int)
    requires
        0 <= c1,
        0 <= c2,
        c1 != c2,
    ensures
        channel_byte(c1) != channel_byte(c2),
{
}

proof fn lemma_not_alpha(c: int, p: int)
    requires
        0 <= c,
        0 <= p,
    ensures
        channel_byte(c) != 4 * p + 3,
{
}

/// Channel `c` (at or after the header) is payload slot `j` of stride `s`
/// exactly when it sits `j * s` channels after the header.
proof fn lemma_payload_slot(c: int, s: int, j: int)
    requires
        c >= HEADER_CHANNELS,
        s > 0,
        j >= 0,
    ensures
        (c - HEADER_CHANNELS == j * s) <==> ((c - HEADER_CHANNELS) % s == 0 && (c
            - HEADER_CHANNELS) / s == j),
{
    let d = c - HEADER_CHANNELS;
    if d == j * s {
        lemma_fundamental_div_mod_converse_mod(d, s, j, 0);
        lemma_fundamental_div_mod_converse_div(d, s, j, 0);
    }
    if d % s == 0 && d / s == j {
        lemma_fundamental_div_mod(d, s);
        assert(d == s * j);
        assert(s * j == j * s) by (nonlinear_arith);
    }
}

/// Payload slot `j < nbits` of stride `remaining / nbits` lies inside the
/// `remaining` channels after the header.
proof fn lemma_slot_in_range(j: int, nbits: int, remaining: int)
    requires
        0 <= j < nbits,
        nbits <= remaining,
    ensures
        remaining / nbits >= 1,
        j * (remaining / nbits) + (remaining / nbits) <= remaining,
        0 <= j * (remaining / nbits),
{
    let s = remaining / nbits;
    lemma_fundamental_div_mod(remaining, nbits);
    assert(remaining == nbits * s + remaining % nbits);
    assert(s >= 1) by (nonlinear_arith)
        requires
            remaining == nbits * s + remaining % nbits,
            remaining % nbits < nbits,
            nbits <= remaining,
            nbits > 0,
            remaining % nbits >= 0,
    ;
    assert(j * s + s <= nbits * s) by (nonlinear_arith)
        requires
            j < nbits,
            s >= 1,
    ;
    assert(0 <= j * s) by (nonlinear_arith)
        requires
            j >= 0,
            s >= 1,
    ;
}

// ─── Bit-level facts ─────────────────────────────────────────────

proof fn lemma_set_lsb_bit(v: u8, b: u8)
    requires
        b < 2,
    ensures
        set_lsb(v, b) & 1u8 == b,
{
    assert(((v & 0xFEu8) | b) & 1u8 == b) by (bit_vector)
        requires
            b < 2,
    ;
}

proof fn lemma_header_bit_small(len: u64, k: int)
    requires
        0 <= k < 64,
    ensures
        header_bit(len, k) < 2,
{
    let kk = k as u64;
    assert(((len >> kk) & 1u64) < 2) by (bit_vector);
}

proof fn lemma_payload_bit_small(p: Seq<u8>, j: int)
    requires
        0 <= j,
    ensures
        payload_bit(p, j) < 2,
{
    let b = p[j / 8];
    let s = (j % 8) as u8;
    assert((b >> s) & 1u8 < 2) by (bit_vector);
}

/// Reassembling the low `k` bits of `x` one at a time gives `x` masked to
/// `k` bits; at 64 bits it gives `x`.
proof fn lemma_u64_bits_step(x: u64, acc: u64, k: u64)
    requires
        k < 64,
        acc == x & (((1u64 << k) - 1u64) as u64),
    ensures
        k < 63 ==> acc | ((((x >> k) & 1u64) as u8 as u64) << k) == x & (((1u64 << ((k + 1)
            as u64)) - 1u64) as u64),
        k == 63 ==> acc | ((((x >> k) & 1u64) as u8 as u64) << k) == x,
{
    assert(acc == x & (((1u64 << k) - 1u64) as u64) && k < 63 ==> acc | ((((x >> k) & 1u64) as u8
        as u64) << k) == x & (((1u64 << ((k + 1) as u64)) - 1u64) as u64)) by (bit_vector);
    assert(acc == x & (((1u64 << k) - 1u64) as u64) && k == 63 ==> acc | ((((x >> k) & 1u64) as u8
        as u64) << k) == x) by (bit_vector);
}

proof fn lemma_u8_bits_step(x: u8, acc: u8, k: u8)
    requires
        k < 8,
        acc == x & (((1u8 << k) - 1u8) as u8),
    ensures
        k < 7 ==> acc | (((x >> k) & 1u8) << k) == x & (((1u8 << ((k + 1) as u8)) - 1u8) as u8),
        k == 7 ==> acc | (((x >> k) & 1u8) << k) == x,
{
    assert(acc == x & (((1u8 << k) - 1u8) as u8) && k < 7 ==> acc | (((x >> k) & 1u8) << k) == x
        & (((1u8 << ((k + 1) as u8)) - 1u8) as u8)) by (bit_vector);
    assert(acc == x & (((1u8 << k) - 1u8) as u8) && k == 7 ==> acc | (((x >> k) & 1u8) << k) == x)
        by (bit_vector);
}

proof fn lemma_mask_zero_u64(x: u64)
    ensures
        x & (((1u64 << 0u64) - 1u64) as u64) == 0,
{
    assert(x & (((1u64 << 0u64) - 1u64) as u64) == 0) by (bit_vector);
}

proof fn lemma_mask_zero_u8(x: u8)
    ensures
        x & (((1u8 << 0u8) - 1u8) as u8) == 0,
{
    assert(x & (((1u8 << 0u8) - 1u8) as u8) == 0) by (bit_vector);
}

/// `c` and `d` are equal up to ASCII case.
pub open spec fn eq_ignore_ascii_case_char(c: char, d: char) -> bool {
    ascii_lower(c) == ascii_lower(d)
}

/// ASCII lowercase of a character (other characters unchanged).
pub open spec fn ascii_lower(c: char) -> char {
    if 'A' <= c <= 'Z' {
        (((c as u32) + 32) as u8) as char
    } else {
        c
    }
}

/// `s` equals `t` up to ASCII case (`str::eq_ignore_ascii_case`).
pub open spec fn spec_eq_ignore_ascii_case(s: Seq<char>, t: Seq<char>) -> bool {
    s.len() == t.len() && forall|i: int| 0 <= i < s.len() ==> eq_ignore_ascii_case_char(#[trigger] s[i], t[i])
}

/// A carrier extension that names a lossless format: "png" or "bmp", in any
/// ASCII case.
pub open spec fn spec_is_lossless_extension(ext: Option<Seq<char>>) -> bool {
    match ext {
        Some(e) => spec_eq_ignore_ascii_case(e, "png"@) || spec_eq_ignore_ascii_case(e, "bmp"@),
        None => false,
    }
}

proof fn lemma_lower_is(c: char, lo: char, up: char)
    requires
        'a' <= lo <= 'z',
        up as u32 + 32 == lo as u32,
    ensures
        (ascii_lower(c) == lo) <==> (c == lo || c == up),
{
    if 'A' <= c <= 'Z' {
        assert(ascii_lower(c) as u32 == c as u32 + 32);
    }
}

/// The lossless carriers: an extension is accepted exactly when it is
/// "png" or "bmp" with each letter in either case; any other extension, and
/// a missing one, is refused.
pub proof fn lemma_lossless_extensions(e: Seq<char>)
    ensures
        spec_is_lossless_extension(Some(e)) <==> (e.len() == 3 && (((e[0] == 'p' || e[0] == 'P') && (e[1] == 'n'
            || e[1] == 'N') && (e[2] == 'g' || e[2] == 'G')) || ((e[0] == 'b' || e[0] == 'B') && (e[1] == 'm'
            || e[1] == 'M') && (e[2] == 'p' || e[2] == 'P')))),
        !spec_is_lossless_extension(None),
{
    reveal_strlit("png");
    reveal_strlit("bmp");
    if e.len() == 3 {
        lemma_lower_is(e[0], 'p', 'P');
        lemma_lower_is(e[1], 'n', 'N');
        lemma_lower_is(e[2], 'g', 'G');
        lemma_lower_is(e[0], 'b', 'B');
        lemma_lower_is(e[1], 'm', 'M');
        lemma_lower_is(e[2], 'p', 'P');
        assert(ascii_lower('p') == 'p' && ascii_lower('n') == 'n' && ascii_lower('g') == 'g');
        assert(ascii_lower('b') == 'b' && ascii_lower('m') == 'm');
        let png = "png"@;
        let bmp = "bmp"@;
        assert(png[0] == 'p' && png[1] == 'n' && png[2] == 'g');
        assert(bmp[0] == 'b' && bmp[1] == 'm' && bmp[2] == 'p');
        assert(spec_eq_ignore_ascii_case(e, png) <==> (eq_ignore_ascii_case_char(e[0], png[0])
            && eq_ignore_ascii_case_char(e[1], png[1]) && eq_ignore_ascii_case_char(e[2], png[2])));
        assert(spec_eq_ignore_ascii_case(e, bmp) <==> (eq_ignore_ascii_case_char(e[0], bmp[0])
            && eq_ignore_ascii_case_char(e[1], bmp[1]) && eq_ignore_ascii_case_char(e[2], bmp[2])));
    }
}

fn lower_char(c: char) -> (r: char)
    ensures
        r == ascii_lower(c),
{
    if 'A' <= c && c <= 'Z' {
        let u = (c as u32 + 32) as u8;
        u as char
    } else {
        c
    }
}

fn chars_eq_ignore_ascii_case(s: &[char], t: &[char]) -> (b: bool)
    ensures
        b == spec_eq_ignore_ascii_case(s@, t@),
{
    if s.len() != t.len() {
        return false;
    }
    let n = s.len();
    let mut i: usize = 0;
    while i < n
        invariant
            n == s@.len() == t@.len(),
            i <= n,
            forall|j: int| 0 <= j < i ==> eq_ignore_ascii_case_char(#[trigger] s@[j], t@[j]),
        decreases n - i,
    {
        if lower_char(s[i]) != lower_char(t[i]) {
            return false;
        }
        i = i + 1;
    }
    true
}

/// Whether a carrier file extension names a lossless format, so that the
/// hidden bits survive being saved.
pub fn is_lossless_extension(ext: Option<&str>) -> (b: bool)
    ensures
        b == spec_is_lossless_extension(
            match ext {
                Some(e) => Some(e@),
                None => None,
            },
        ),
{
    match ext {
        Some(e) => {
            let c = str_chars(e);
            let png = str_chars("png");
            let bmp = str_chars("bmp");
            chars_eq_ignore_ascii_case(c.as_slice(), png.as_slice()) || chars_eq_ignore_ascii_case(
                c.as_slice(),
                bmp.as_slice(),
            )
        },
        None => false,
    }
}

/// Checks the carrier's extension before an injection.
pub fn check_carrier_extension(ext: Option<&str>) -> (r: Result<(), StegoError>)
    ensures
        r is Ok <==> spec_is_lossless_extension(
            match ext {
                Some(e) => Some(e@),
                None => None,
            },
        ),
        r matches Err(e) ==> e == StegoError::LossyCarrier,
{
    if is_lossless_extension(ext) {
        Ok(())
    } else {
        Err(StegoError::LossyCarrier)
    }
}

} // verus!
