//! Assembles a slide show (still images, each with its own PCM audio) into one WebM file.
//!
//! The muxer in [`encoder`] writes the file progressively into a [`paged_vec::PagedVec`], from
//! which a driver takes the finished bytes after each step. Durations are kept in ticks of the
//! file's timecode scale, one millisecond each.
use vstd::prelude::*;
use std::collections::HashMap;

pub mod assemble;
pub mod cluster;
pub mod ebml;
pub mod encoder;
pub mod media;
pub mod paged_vec;
pub mod runtime;
pub mod tracks;

verus! {

/// One still image with the audio that plays while it is shown.
pub struct Slide {
    /// The image file, in the colour model of the slide show.
    pub image: String,
    /// The PCM audio file, in the audio format of the slide show; ignored without one.
    pub audio: String,
    /// Text shown over this slide, by language. Carried along, not encoded.
    pub subtitles: HashMap<String, Subtitle>,
    /// A chapter that starts at this slide. Carried along, not encoded.
    pub chapter: Option<Chapter>,
    /// How long the slide is shown, in milliseconds.
    pub millis: u64,
}

pub enum Color {
    Srgb,
}

pub enum Audio {
    Pcm { sampling_frequency: u32, channels: u16, bits_per_sample: u16 },
}

pub struct Subtitle {
    pub text: String,
    /// Offset into the slide, in milliseconds.
    pub timing: u64,
}

pub struct Chapter {
    pub title: String,
    pub depth: usize,
}

/// What to assemble, and in which format.
pub struct SlideShow<'slides> {
    pub slides: &'slides [Slide],
    pub width: u32,
    pub height: u32,
    pub color: Color,
    /// The format of the slides' audio; without it the file has no audio track.
    pub audio: Option<Audio>,
}

/// The total duration of `slides`, in milliseconds.
pub open spec fn total_millis(slides: Seq<Slide>) -> nat
    decreases slides.len(),
{
    if slides.len() == 0 {
        0
    } else {
        (total_millis(slides.drop_last()) + slides.last().millis) as nat
    }
}

} // verus!
