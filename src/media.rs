//! Decoding of a slide's media, and the few facts of the host that the output depends on.
use vstd::prelude::*;
use crate::ebml::be_fixed;
use crate::cluster::{Frame, PcmData};
use crate::encoder::{Error, ErrorKind};

verus! {

/// The error of `image`, carried through to the caller.
#[verifier::external_type_specification]
#[verifier::external_body]
pub struct ExImageError(image::ImageError);

/// std's I/O error, carried through to the caller.
#[verifier::external_type_specification]
#[verifier::external_body]
pub struct ExIoError(std::io::Error);

/// Relies on `u16::to_ne_bytes`: the value's bytes in the host's order, which is big- or
/// little-endian.
#[verifier::external_body]
pub fn u16_ne_bytes(v: u16) -> (r: [u8; 2])
    ensures
        r@ == be_fixed(v as nat, 2) || r@ == be_fixed(v as nat, 2).reverse(),
{
    v.to_ne_bytes()
}

/// Relies on `BuildHasher::hash_one` with std's `DefaultHasher`: some 64-bit hash of `id`.
#[verifier::external_body]
pub fn mk_track_uid(id: u64) -> u64 {
    std::hash::BuildHasher::hash_one(
        &std::hash::BuildHasherDefault::<std::collections::hash_map::DefaultHasher>::default(),
        id,
    )
}

/// The image that `image::load_from_memory` decodes from a file's bytes, if any: its width,
/// height and 8-bit RGBA pixels.
pub uninterp spec fn image_of(b: Seq<u8>) -> Option<(u32, u32, Seq<u8>)>;

/// Relies on `image::load_from_memory`, then `DynamicImage::to_rgba8`: the image in `bytes`,
/// whatever its format, converted to 8-bit RGBA of the same size. The result depends on the
/// bytes alone.
#[verifier::external_body]
pub fn decode_image(bytes: &[u8]) -> (r: Result<Frame, image::ImageError>)
    ensures
        (r is Ok) == (image_of(bytes@) is Some),
        r matches Ok(f) ==> f.wf() && image_of(bytes@) == Some((f.width, f.height, f.rgba@)),
{
    image::load_from_memory(bytes).map(|img| Frame {
        width: img.width(),
        height: img.height(),
        rgba: img.to_rgba8().into_raw(),
    })
}

/// Relies on `image::ImageError::IoError`: the I/O failure inside an image error, if it is one.
#[verifier::external_body]
pub fn image_io_error(e: image::ImageError) -> Result<std::io::Error, image::ImageError> {
    match e {
        image::ImageError::IoError(io) => Ok(io),
        other => Err(other),
    }
}

/// The header of a wave file.
pub struct WavHeader {
    pub channel_count: u16,
    pub bytes_per_second: u32,
    pub bytes_per_sample: u16,
    pub bits_per_sample: u16,
}

/// The samples of a wave file, by their size. Float samples are held as their bits.
pub enum Samples {
    Eight(Vec<u8>),
    Sixteen(Vec<i16>),
    TwentyFour(Vec<i32>),
    ThirtyTwoFloat(Vec<u32>),
    Empty,
}

impl Samples {
    /// The size of a sample in bits, 0 for none.
    pub open spec fn depth(&self) -> nat {
        match self {
            Samples::Eight(_) => 8,
            Samples::Sixteen(_) => 16,
            Samples::TwentyFour(_) => 24,
            Samples::ThirtyTwoFloat(_) => 32,
            Samples::Empty => 0,
        }
    }

    /// The samples' values.
    pub open spec fn values(&self) -> Seq<int> {
        match self {
            Samples::Eight(v) => v@.map_values(|x: u8| x as int),
            Samples::Sixteen(v) => v@.map_values(|x: i16| x as int),
            Samples::TwentyFour(v) => v@.map_values(|x: i32| x as int),
            Samples::ThirtyTwoFloat(v) => v@.map_values(|x: u32| x as int),
            Samples::Empty => Seq::empty(),
        }
    }
}

/// Four bytes at `at` that are ASCII, hence a valid UTF-8 chunk identifier.
pub open spec fn ascii_id(b: Seq<u8>, at: int) -> bool {
    b[at] < 128 && b[at + 1] < 128 && b[at + 2] < 128 && b[at + 3] < 128
}

/// The little-endian 32-bit number at `at`.
pub open spec fn le32(b: Seq<u8>, at: int) -> nat {
    (b[at] + 256 * b[at + 1] + 65536 * b[at + 2] + 16777216 * b[at + 3]) as nat
}

pub open spec fn walk_measure(cur: nat, end: nat) -> nat {
    if cur < end {
        (end - cur) as nat
    } else {
        0
    }
}

/// The chunk at `at` is the format chunk, `fmt `.
pub open spec fn is_fmt(b: Seq<u8>, at: int) -> bool {
    b[at] == 0x66 && b[at + 1] == 0x6d && b[at + 2] == 0x74 && b[at + 3] == 0x20
}

/// The chunk at `at` is the data chunk, `data`.
pub open spec fn is_data(b: Seq<u8>, at: int) -> bool {
    b[at] == 0x64 && b[at + 1] == 0x61 && b[at + 2] == 0x74 && b[at + 3] == 0x61
}

/// Every chunk header that `wav` meets walking from `cur` to `end`, until it has seen both the
/// format chunk and the data chunk, lies within `b` and has an ASCII identifier.
pub open spec fn children_readable(b: Seq<u8>, cur: nat, end: nat, fmt: bool, data: bool) -> bool
    decreases walk_measure(cur, end),
{
    if fmt && data || cur >= end {
        true
    } else if cur + 8 > b.len() {
        false
    } else {
        let l = le32(b, cur + 4 as int);
        ascii_id(b, cur as int) && children_readable(
            b,
            cur + 8 + l + l % 2,
            end,
            fmt || is_fmt(b, cur as int),
            data || is_data(b, cur as int),
        )
    }
}

/// Files on which `wav::read` cannot panic: those that end before their form type, and those
/// with an ASCII form type whose chunks can be walked as far as `wav` walks them.
pub open spec fn riff_readable(b: Seq<u8>) -> bool {
    b.len() < 12 || (ascii_id(b, 8) && children_readable(b, 12, 4 + le32(b, 4), false, false))
}

/// Whether the chunks of a RIFF file can be walked as `wav` walks them.
pub fn check_riff(b: &[u8]) -> (r: bool)
    ensures
        r == riff_readable(b@),
{
    if b.len() < 12 {
        return true;
    }
    if !(b[8] < 128 && b[9] < 128 && b[10] < 128 && b[11] < 128) {
        return false;
    }
    let end: u64 = 4 + b[4] as u64 + 256 * b[5] as u64 + 65536 * b[6] as u64 + 16777216
        * b[7] as u64;
    let mut cur: u64 = 12;
    let mut fmt = false;
    let mut data = false;
    while !(fmt && data) && cur < end
        invariant
            children_readable(b@, 12, end as nat, false, false) == children_readable(
                b@,
                cur as nat,
                end as nat,
                fmt,
                data,
            ),
            end == 4 + le32(b@, 4),
            b@.len() >= 12,
            ascii_id(b@, 8),
            end <= 0x1_0000_0004,
            cur <= 0x3_0000_0000,
        decreases walk_measure(cur as nat, end as nat),
    {
        if cur + 8 > b.len() as u64 {
            return false;
        }
        let c = cur as usize;
        if !(b[c] < 128 && b[c + 1] < 128 && b[c + 2] < 128 && b[c + 3] < 128) {
            return false;
        }
        let l: u64 = b[c + 4] as u64 + 256 * b[c + 5] as u64 + 65536 * b[c + 6] as u64 + 16777216
            * b[c + 7] as u64;
        assert(l == le32(b@, cur + 4 as int));
        fmt = fmt || (b[c] == 0x66 && b[c + 1] == 0x6d && b[c + 2] == 0x74 && b[c + 3] == 0x20);
        data = data || (b[c] == 0x64 && b[c + 1] == 0x61 && b[c + 2] == 0x74 && b[c + 3] == 0x61);
        cur = cur + 8 + l + l % 2;
    }
    true
}

/// What `wav::read` decodes from a file's bytes, if anything: channels, bytes per second,
/// bytes per sample frame, bits per sample, then the samples' size in bits (0 for none) and
/// their values (float samples as their bits).
pub uninterp spec fn wav_of(b: Seq<u8>) -> Option<(u16, u32, u16, u16, nat, Seq<int>)>;

/// Relies on `wav::read` over the bytes of a wave file: its header and samples, which depend on
/// the bytes alone. It panics on a chunk list that cannot be walked, which `requires` leaves
/// out.
#[verifier::external_body]
pub fn decode_wav(bytes: &[u8]) -> (r: Result<(WavHeader, Samples), std::io::Error>)
    requires
        riff_readable(bytes@),
    ensures
        (r is Ok) == (wav_of(bytes@) is Some),
        r matches Ok((h, s)) ==> wav_of(bytes@) == Some(
            (
                h.channel_count,
                h.bytes_per_second,
                h.bytes_per_sample,
                h.bits_per_sample,
                s.depth(),
                s.values(),
            ),
        ),
{
    wav::read(&mut std::io::Cursor::new(bytes)).map(|(h, d)| (WavHeader {
        channel_count: h.channel_count,
        bytes_per_second: h.bytes_per_second,
        bytes_per_sample: h.bytes_per_sample,
        bits_per_sample: h.bits_per_sample,
    }, match d {
        wav::BitDepth::Eight(v) => Samples::Eight(v),
        wav::BitDepth::Sixteen(v) => Samples::Sixteen(v),
        wav::BitDepth::TwentyFour(v) => Samples::TwentyFour(v),
        wav::BitDepth::ThirtyTwoFloat(v) => Samples::ThirtyTwoFloat(v.iter().map(|s| s.to_bits()).collect()),
        wav::BitDepth::Empty => Samples::Empty,
    }))
}

/// One 16-bit sample's bytes, big-endian or little-endian.
pub open spec fn sample16(x: i16, big: bool) -> Seq<u8> {
    if big {
        be_fixed(x as u16 as nat, 2)
    } else {
        be_fixed(x as u16 as nat, 2).reverse()
    }
}

/// 16-bit samples as bytes, in the byte order given.
pub fn sample_bytes(v: &[i16], big: bool) -> (r: Vec<u8>)
    requires
        v@.len() <= 0x1000_0000_0000_0000,
    ensures
        r@.len() == 2 * v@.len(),
        forall|k: int|
            0 <= k < v@.len() ==> #[trigger] r@.subrange(2 * k, 2 * k + 2) == sample16(v@[k], big),
{
    let mut r: Vec<u8> = Vec::new();
    let mut k: usize = 0;
    while k < v.len()
        invariant
            k <= v@.len(),
            v@.len() <= 0x1000_0000_0000_0000,
            r@.len() == 2 * k,
            forall|m: int|
                0 <= m < k ==> #[trigger] r@.subrange(2 * m, 2 * m + 2) == sample16(v@[m], big),
        decreases v@.len() - k,
    {
        let x = v[k] as u16;
        let ghost old_r = r@;
        if big {
            r.push((x / 256) as u8);
            r.push((x % 256) as u8);
        } else {
            r.push((x % 256) as u8);
            r.push((x / 256) as u8);
        }
        proof {
            reveal_with_fuel(be_fixed, 3);
            assert(r@.subrange(2 * k as int, 2 * k as int + 2) =~= sample16(v@[k as int], big));
            assert forall|m: int| 0 <= m < k implies #[trigger] r@.subrange(2 * m, 2 * m + 2)
                == sample16(v@[m], big) by {
                assert(r@.subrange(2 * m, 2 * m + 2) =~= old_r.subrange(2 * m, 2 * m + 2));
            }
        }
        k = k + 1;
    }
    r
}

/// Float samples, given as their bits, in little-endian byte order.
pub fn float_le_bytes(bits: &[u32]) -> (r: Vec<u8>)
    requires
        bits@.len() <= 0x1000_0000_0000_0000,
    ensures
        r@.len() == 4 * bits@.len(),
        forall|k: int|
            0 <= k < bits@.len() ==> #[trigger] r@.subrange(4 * k, 4 * k + 4) == be_fixed(
                bits@[k] as nat,
                4,
            ).reverse(),
{
    let mut r: Vec<u8> = Vec::new();
    let mut k: usize = 0;
    while k < bits.len()
        invariant
            k <= bits@.len(),
            bits@.len() <= 0x1000_0000_0000_0000,
            r@.len() == 4 * k,
            forall|m: int|
                0 <= m < k ==> #[trigger] r@.subrange(4 * m, 4 * m + 4) == be_fixed(
                    bits@[m] as nat,
                    4,
                ).reverse(),
        decreases bits@.len() - k,
    {
        let x = bits[k];
        let y = x / 256;
        let z = y / 256;
        let w = z / 256;
        let ghost old_r = r@;
        r.push((x % 256) as u8);
        r.push((y % 256) as u8);
        r.push((z % 256) as u8);
        r.push((w % 256) as u8);
        proof {
            reveal_with_fuel(be_fixed, 5);
            assert(r@.subrange(4 * k as int, 4 * k as int + 4) =~= be_fixed(x as nat, 4).reverse());
            assert forall|m: int| 0 <= m < k implies #[trigger] r@.subrange(4 * m, 4 * m + 4)
                == be_fixed(bits@[m] as nat, 4).reverse() by {
                assert(r@.subrange(4 * m, 4 * m + 4) =~= old_r.subrange(4 * m, 4 * m + 4));
            }
        }
        k = k + 1;
    }
    r
}

/// The bytes that carry the samples, and the size of one sample. 8-bit samples go as they are,
/// 16-bit samples in the byte order given (`big`), float samples little-endian; 24-bit samples
/// are not implemented.
pub fn pcm_data(samples: Samples, big: bool) -> (r: Result<PcmData, Error>)
    ensures
        match samples {
            Samples::Eight(v) => r matches Ok(p) && p.bytes@ == v@ && p.sample_width == 1,
            Samples::Sixteen(v) => v@.len() <= 0x1000_0000_0000_0000 ==> (r matches Ok(p)
                && p.bytes@.len() == 2 * v@.len() && p.sample_width == 2 && forall|k: int|
                0 <= k < v@.len() ==> #[trigger] p.bytes@.subrange(2 * k, 2 * k + 2) == sample16(
                v@[k],
                big,
            )),
            Samples::ThirtyTwoFloat(v) => v@.len() <= 0x1000_0000_0000_0000 ==> (r matches Ok(p)
                && p.bytes@.len() == 4 * v@.len() && p.sample_width == 4 && forall|k: int|
                0 <= k < v@.len() ==> #[trigger] p.bytes@.subrange(4 * k, 4 * k + 4) == be_fixed(
                v@[k] as nat,
                4,
            ).reverse()),
            Samples::TwentyFour(_) => r == Err::<PcmData, Error>(
                Error { inner: ErrorKind::UnsupportedBitDepth(24) },
            ),
            Samples::Empty => r == Err::<PcmData, Error>(Error { inner: ErrorKind::UnsupportedAudio }),
        },
        r is Err ==> r == Err::<PcmData, Error>(Error { inner: ErrorKind::UnsupportedAudio })
            || r == Err::<PcmData, Error>(Error { inner: ErrorKind::UnsupportedBitDepth(24) }),
{
    match samples {
        Samples::Eight(v) => Ok(PcmData { bytes: v, sample_width: 1 }),
        Samples::Sixteen(v) => {
            if v.len() as u64 > 0x1000_0000_0000_0000 {
                return Err(Error { inner: ErrorKind::UnsupportedAudio });
            }
            Ok(PcmData { bytes: sample_bytes(v.as_slice(), big), sample_width: 2 })
        },
        Samples::ThirtyTwoFloat(v) => {
            if v.len() as u64 > 0x1000_0000_0000_0000 {
                return Err(Error { inner: ErrorKind::UnsupportedAudio });
            }
            Ok(PcmData { bytes: float_le_bytes(v.as_slice()), sample_width: 4 })
        },
        Samples::TwentyFour(_) => Err(Error { inner: ErrorKind::UnsupportedBitDepth(24) }),
        Samples::Empty => Err(Error { inner: ErrorKind::UnsupportedAudio }),
    }
}

} // verus!
