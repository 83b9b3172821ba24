//! What a driver decides before muxing: that there is something to show, and the format of the
//! show, taken from its first slide.
use vstd::prelude::*;
use crate::cluster::frame_fits;
use crate::encoder::{lemma_total_prefix, lemma_total_step, Error, ErrorKind};
use crate::media::{
    check_riff, decode_image, decode_wav, image_io_error, image_of, riff_readable, wav_of,
};
use crate::{total_millis, Audio, Color, Slide, SlideShow};

verus! {

/// Rejects an empty slide list, before any file is opened.
pub fn require_slides(slides: &[Slide]) -> (r: Result<(), Error>)
    ensures
        r is Err <==> slides@.len() == 0,
        r is Err ==> r == Err::<(), Error>(Error { inner: ErrorKind::EmptySequence }),
{
    if slides.len() == 0 {
        Err(Error { inner: ErrorKind::EmptySequence })
    } else {
        Ok(())
    }
}

/// Whether a muxer can take `show`: it has slides, its duration in ticks is exact as a double,
/// and a decoded frame fits in one element.
pub fn show_fits(show: &SlideShow) -> (r: bool)
    ensures
        r == (0 < show.slides@.len() && total_millis(show.slides@) < 0x20_0000_0000_0000
            && frame_fits((4 * show.width * show.height) as nat)),
{
    if show.slides.len() == 0 {
        return false;
    }
    let w = show.width as u64;
    let h = show.height as u64;
    assert(w * h <= 0xffff_fffe_0000_0001) by (nonlinear_arith)
        requires w <= 0xffff_ffff, h <= 0xffff_ffff;
    let area = w * h;
    assert(4 * show.width * show.height == 4 * area) by (nonlinear_arith)
        requires area == w * h, w == show.width, h == show.height;
    assert(frame_fits((4 * show.width * show.height) as nat) == (area <= 0x4000_0000_0000));
    if area > 0x4000_0000_0000 {
        return false;
    }
    let mut sum: u64 = 0;
    let mut k: usize = 0;
    while k < show.slides.len()
        invariant
            k <= show.slides@.len(),
            sum == total_millis(show.slides@.take(k as int)),
            sum < 0x20_0000_0000_0000,
            frame_fits((4 * show.width * show.height) as nat),
            0 < show.slides@.len(),
        decreases show.slides@.len() - k,
    {
        proof {
            lemma_total_step(show.slides@, k as int);
        }
        let m = show.slides[k].millis;
        if m >= 0x20_0000_0000_0000 - sum {
            proof {
                lemma_total_prefix(show.slides@, k + 1);
            }
            return false;
        }
        sum = sum + m;
        k = k + 1;
    }
    proof {
        assert(show.slides@.take(k as int) =~= show.slides@);
    }
    true
}

/// The format of a show, from the files of its first slide: the image's size, and the format
/// of the audio if there is audio. The result has no slides yet.
///
/// An image that does not decode is an error, an I/O failure inside the decoder a fatal one.
/// Audio that does not decode, or whose samples take no bytes, is a domain error.
pub fn basic_show_data(image: &[u8], audio: Option<&[u8]>) -> (r: Result<
    Result<SlideShow<'static>, Error>,
    std::io::Error,
>)
    ensures
        image_of(image@) is None ==> !(r matches Ok(Ok(_))),
        r matches Ok(Ok(show)) ==> {
            &&& show.slides@.len() == 0
            &&& show.color == Color::Srgb
            &&& image_of(image@) is Some
            &&& show.width == image_of(image@)->Some_0.0
            &&& show.height == image_of(image@)->Some_0.1
            &&& (show.audio is None <==> audio is None)
        },
        match (image_of(image@), audio) {
            (None, _) => true,
            (Some(_), None) => r matches Ok(Ok(_)),
            (Some(_), Some(b)) => if !riff_readable(b@) {
                r == Ok::<Result<SlideShow<'static>, Error>, std::io::Error>(
                    Err(Error { inner: ErrorKind::UnsupportedAudio }),
                )
            } else {
                match wav_of(b@) {
                    None => r matches Ok(Err(e)) && e.inner is Wav,
                    Some((channels, per_second, frame, bits, _, _)) => if frame == 0 {
                        r == Ok::<Result<SlideShow<'static>, Error>, std::io::Error>(
                            Err(Error { inner: ErrorKind::UnsupportedAudio }),
                        )
                    } else {
                        r matches Ok(Ok(show)) && show.audio == Some(
                            Audio::Pcm {
                                sampling_frequency: (per_second / (frame as u32)) as u32,
                                channels,
                                bits_per_sample: bits,
                            },
                        )
                    },
                }
            },
        },
{
    let (width, height) = match decode_image(image) {
        Ok(f) => (f.width, f.height),
        Err(e) => {
            return match image_io_error(e) {
                Ok(io) => Err(io),
                Err(e) => Ok(Err(Error { inner: ErrorKind::Image(e) })),
            };
        },
    };
    let audio = match audio {
        None => None,
        Some(bytes) => {
            if !check_riff(bytes) {
                return Ok(Err(Error { inner: ErrorKind::UnsupportedAudio }));
            }
            let header = match decode_wav(bytes) {
                Ok((header, _)) => header,
                Err(io) => {
                    return Ok(Err(Error { inner: ErrorKind::Wav(io) }));
                },
            };
            if header.bytes_per_sample == 0 {
                return Ok(Err(Error { inner: ErrorKind::UnsupportedAudio }));
            }
            Some(
                Audio::Pcm {
                    sampling_frequency: header.bytes_per_second / header.bytes_per_sample as u32,
                    channels: header.channel_count,
                    bits_per_sample: header.bits_per_sample,
                },
            )
        },
    };
    Ok(Ok(SlideShow { slides: &[], width, height, color: Color::Srgb, audio }))
}

} // verus!
