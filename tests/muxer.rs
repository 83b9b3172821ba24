use std::collections::HashMap;
use std::io::Cursor;

use mkv_slide_show::assemble::{basic_show_data, require_slides};
use mkv_slide_show::encoder::{Encoder, ErrorKind};
use mkv_slide_show::paged_vec::PagedVec;
use mkv_slide_show::{Audio, Color, Slide, SlideShow};
use webm_iterable::matroska_spec::{Master, MatroskaSpec};
use webm_iterable::WebmIterator;

fn ppm(width: u32, height: u32) -> Vec<u8> {
    let mut bytes = format!("P6\n{} {}\n255\n", width, height).into_bytes();
    for i in 0..(width * height) {
        bytes.push((i % 251) as u8);
        bytes.push(0x40);
        bytes.push(0x80);
    }
    bytes
}

fn silent_wav(rate: u32, samples: usize) -> Vec<u8> {
    let header = wav::Header::new(wav::WAV_FORMAT_PCM, 1, rate, 16);
    let mut out = Cursor::new(Vec::new());
    wav::write(header, &wav::BitDepth::Sixteen(vec![0i16; samples]), &mut out)
        .expect("writing a wave file to memory");
    out.into_inner()
}

fn slide(millis: u64) -> Slide {
    Slide {
        image: String::from("slide.ppm"),
        audio: String::from("slide.wav"),
        subtitles: HashMap::new(),
        chapter: None,
        millis,
    }
}

fn pcm_audio() -> Option<Audio> {
    Some(Audio::Pcm { sampling_frequency: 11025, channels: 1, bits_per_sample: 16 })
}

/// Runs the muxer to the end, persisting after each step; returns the file and the number of
/// steps taken.
fn run(show: &SlideShow, image: &[u8], audio: &[u8]) -> (Vec<u8>, usize) {
    let mut encoder = Encoder::new(show, PagedVec::new(PagedVec::default_memory()));
    let mut out = Vec::new();
    let mut steps = 0;
    while !encoder.done() {
        let r = encoder.step(image, audio);
        assert!(matches!(r, Ok(Ok(()))), "{:?}", r);
        steps += 1;
        let n = encoder.ready().len();
        out.extend_from_slice(encoder.ready());
        encoder.consume(n);
        assert!(encoder.ready().is_empty());
    }
    out.extend_from_slice(encoder.tail());
    (out, steps)
}

fn tags(file: &[u8]) -> Vec<MatroskaSpec> {
    let mut src = Cursor::new(file.to_vec());
    WebmIterator::new(&mut src, &[])
        .map(|t| t.expect("a well-formed WebM file"))
        .collect()
}

#[test]
fn three_silent_slides_make_a_webm_file() {
    let slides = vec![slide(1000), slide(1000), slide(1000)];
    let show = SlideShow { slides: &slides, width: 64, height: 64, color: Color::Srgb, audio: pcm_audio() };
    let (file, steps) = run(&show, &ppm(64, 64), &silent_wav(11025, 11025));
    assert_eq!(steps, 4);
    let tags = tags(&file);
    assert!(matches!(tags[0], MatroskaSpec::Ebml(Master::Start)));
    let entries = tags.iter().filter(|t| matches!(t, MatroskaSpec::TrackEntry(Master::Start))).count();
    assert_eq!(entries, 2);
    let kinds: Vec<u64> = tags
        .iter()
        .filter_map(|t| match t {
            MatroskaSpec::TrackType(k) => Some(*k),
            _ => None,
        })
        .collect();
    assert_eq!(kinds, vec![1, 2]);
    let durations: Vec<f64> = tags
        .iter()
        .filter_map(|t| match t {
            MatroskaSpec::Duration(d) => Some(*d),
            _ => None,
        })
        .collect();
    assert_eq!(durations.len(), 1);
    assert!((durations[0] - 3000.0).abs() <= 1.0);
    let cues = tags.iter().filter(|t| matches!(t, MatroskaSpec::Cues(Master::Start))).count();
    assert_eq!(cues, 1);
}

#[test]
fn done_after_one_step_per_slide_and_one_for_the_header() {
    let slides = vec![slide(400), slide(2500)];
    let show = SlideShow { slides: &slides, width: 8, height: 4, color: Color::Srgb, audio: None };
    let image = ppm(8, 4);
    let mut encoder = Encoder::new(&show, PagedVec::new(1024));
    for _ in 0..3 {
        assert!(!encoder.done());
        assert!(matches!(encoder.step(&image, &[]), Ok(Ok(()))));
    }
    assert!(encoder.done());
    let before = encoder.ready().len();
    assert!(matches!(encoder.step(&image, &[]), Ok(Ok(()))));
    assert_eq!(encoder.ready().len(), before);
}

#[test]
fn persisted_chunks_and_tail_are_the_whole_file() {
    let slides = vec![slide(1500), slide(700)];
    let show = SlideShow { slides: &slides, width: 16, height: 16, color: Color::Srgb, audio: pcm_audio() };
    let image = ppm(16, 16);
    let audio = silent_wav(11025, 5000);
    let (streamed, _) = run(&show, &image, &audio);

    let mut encoder = Encoder::new(&show, PagedVec::new(16));
    while !encoder.done() {
        assert!(matches!(encoder.step(&image, &audio), Ok(Ok(()))));
    }
    assert_eq!(encoder.tail(), &streamed[..]);
}

#[test]
fn duration_is_the_sum_of_the_slides() {
    let two = vec![slide(1500), slide(1500)];
    let three = vec![slide(1000), slide(1000), slide(1000)];
    let image = ppm(4, 4);
    let a = SlideShow { slides: &two, width: 4, height: 4, color: Color::Srgb, audio: None };
    let b = SlideShow { slides: &three, width: 4, height: 4, color: Color::Srgb, audio: None };
    let durations = |file: &[u8]| -> Vec<f64> {
        tags(file)
            .into_iter()
            .filter_map(|t| match t {
                MatroskaSpec::Duration(d) => Some(d),
                _ => None,
            })
            .collect()
    };
    assert_eq!(durations(&run(&a, &image, &[]).0), vec![3000.0]);
    assert_eq!(durations(&run(&b, &image, &[]).0), vec![3000.0]);
}

#[test]
fn without_audio_there_is_one_track() {
    let slides = vec![slide(1000)];
    let show = SlideShow { slides: &slides, width: 4, height: 4, color: Color::Srgb, audio: None };
    let tags = tags(&run(&show, &ppm(4, 4), &[]).0);
    let kinds: Vec<u64> = tags
        .iter()
        .filter_map(|t| match t {
            MatroskaSpec::TrackType(k) => Some(*k),
            _ => None,
        })
        .collect();
    assert_eq!(kinds, vec![1]);
}

#[test]
fn frames_are_split_into_blocks_of_at_most_a_second() {
    let slides = vec![slide(2500)];
    let show = SlideShow { slides: &slides, width: 4, height: 4, color: Color::Srgb, audio: None };
    let tags = tags(&run(&show, &ppm(4, 4), &[]).0);
    let durations: Vec<u64> = tags
        .iter()
        .filter_map(|t| match t {
            MatroskaSpec::BlockDuration(d) => Some(*d),
            _ => None,
        })
        .collect();
    assert_eq!(durations, vec![1000, 1000, 500, 0]);
    let times: Vec<u64> = tags
        .iter()
        .filter_map(|t| match t {
            MatroskaSpec::Timestamp(d) => Some(*d),
            _ => None,
        })
        .collect();
    assert_eq!(times, vec![0, 1000, 2000, 2500]);
}

#[test]
fn audio_chunks_are_placed_by_their_first_sample() {
    let slides = vec![slide(100)];
    let show = SlideShow { slides: &slides, width: 4, height: 4, color: Color::Srgb, audio: pcm_audio() };
    let tags = tags(&run(&show, &ppm(4, 4), &silent_wav(11025, 1000)).0);
    let times: Vec<u64> = tags
        .iter()
        .filter_map(|t| match t {
            MatroskaSpec::Timestamp(d) => Some(*d),
            _ => None,
        })
        .collect();
    // 334 samples per chunk at 11025 Hz: chunks at samples 0, 334 and 668.
    assert_eq!(times, vec![0, 30, 61, 0, 100]);
}

#[test]
fn wrong_image_size_is_refused_the_same_way_twice() {
    let slides = vec![slide(1000)];
    let show = SlideShow { slides: &slides, width: 64, height: 64, color: Color::Srgb, audio: None };
    let mut encoder = Encoder::new(&show, PagedVec::new(1024));
    assert!(matches!(encoder.step(&[], &[]), Ok(Ok(()))));
    let written = encoder.ready().to_vec();
    let image = ppm(32, 64);
    for _ in 0..2 {
        match encoder.step(&image, &[]) {
            Ok(Err(e)) => assert!(matches!(e.inner, ErrorKind::MismatchingDimensions)),
            other => panic!("unexpected {:?}", other),
        }
        assert_eq!(encoder.ready(), &written[..]);
        assert!(!encoder.done());
    }
    assert!(matches!(encoder.step(&ppm(64, 64), &[]), Ok(Ok(()))));
    assert!(encoder.done());
}

#[test]
fn an_empty_slide_list_is_refused() {
    let r = require_slides(&[]);
    assert!(matches!(r, Err(e) if matches!(e.inner, ErrorKind::EmptySequence)));
    assert!(require_slides(&[slide(1)]).is_ok());
}

#[test]
fn undecodable_media_are_domain_errors() {
    let slides = vec![slide(1000)];
    let show = SlideShow { slides: &slides, width: 4, height: 4, color: Color::Srgb, audio: pcm_audio() };
    let mut encoder = Encoder::new(&show, PagedVec::new(1024));
    assert!(matches!(encoder.step(&[], &[]), Ok(Ok(()))));
    let image = ppm(4, 4);
    let not_wave = [b'R', b'I', b'F', b'F', 4, 0, 0, 0, b'A', b'V', b'I', b' '];
    match encoder.step(&image, &not_wave) {
        Ok(Err(e)) => assert!(matches!(e.inner, ErrorKind::Wav(_))),
        other => panic!("unexpected {:?}", other),
    }
    match encoder.step(&image, b"RIFF....WAVEjunk") {
        Ok(Err(e)) => assert!(matches!(e.inner, ErrorKind::UnsupportedAudio)),
        other => panic!("unexpected {:?}", other),
    }
    let mut deep = silent_wav(11025, 10);
    deep[22] = 0;
    deep[23] = 0;
    deep[34] = 24;
    match encoder.step(&image, &deep) {
        Ok(Err(e)) => assert!(matches!(e.inner, ErrorKind::UnsupportedBitDepth(24))),
        other => panic!("unexpected {:?}", other),
    }
    match encoder.step(b"not an image at all", &silent_wav(11025, 10)) {
        Ok(Err(e)) => assert!(matches!(e.inner, ErrorKind::Image(_))),
        other => panic!("unexpected {:?}", other),
    }
    assert!(!encoder.done());
}

#[test]
fn the_first_slide_gives_the_format() {
    match basic_show_data(&ppm(12, 7), Some(&silent_wav(11025, 100))) {
        Ok(Ok(show)) => {
            assert!(show.slides.is_empty());
            assert_eq!((show.width, show.height), (12, 7));
            match show.audio {
                Some(Audio::Pcm { sampling_frequency, channels, bits_per_sample }) => {
                    assert_eq!((sampling_frequency, channels, bits_per_sample), (11025, 1, 16));
                }
                None => panic!("audio expected"),
            }
        }
        Ok(Err(e)) => panic!("{:?}", e),
        Err(e) => panic!("{:?}", e),
    }
    match basic_show_data(&ppm(3, 3), None) {
        Ok(Ok(show)) => assert!(show.audio.is_none()),
        _ => panic!("a show without audio expected"),
    }
    assert!(matches!(basic_show_data(b"nothing", None), Ok(Err(_)) | Err(_)));
}

#[test]
fn truncated_audio_is_a_domain_error() {
    let slides = vec![slide(1000)];
    let show = SlideShow { slides: &slides, width: 4, height: 4, color: Color::Srgb, audio: pcm_audio() };
    let mut encoder = Encoder::new(&show, PagedVec::new(1024));
    assert!(matches!(encoder.step(&[], &[]), Ok(Ok(()))));
    let mut wav = silent_wav(11025, 100);
    wav.truncate(wav.len() - 50);
    let fixed = (wav.len() - 8) as u32;
    wav[4..8].copy_from_slice(&fixed.to_le_bytes());
    let data_len = (wav.len() - 44 + 50) as u32;
    wav[40..44].copy_from_slice(&data_len.to_le_bytes());
    match encoder.step(&ppm(4, 4), &wav) {
        Ok(Err(e)) => assert!(matches!(e.inner, ErrorKind::Wav(_))),
        other => panic!("unexpected {:?}", other),
    }
}
