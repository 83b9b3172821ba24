//! The muxer: a state machine that writes a slide show as a WebM file, one bounded unit of work
//! per step.
use vstd::prelude::*;
use crate::cluster::{
    audio_fault, chunk_samples, frame_fits, pcm_fits, slide_audio, slide_bytes, write_audio, write_frames, Frame, PcmData,
    CHUNK_MILLIS, TRACK_AUDIO, TRACK_VIDEO,
};
use crate::ebml::{CUES, EBML, INFO, TRACKS};
use crate::media::{
    check_riff, decode_image, Samples, decode_wav, image_io_error, image_of, mk_track_uid, pcm_data,
    riff_readable, wav_of,
};
use crate::paged_vec::{lemma_ready_appended, PagedVec};
use crate::tracks::{
    ebml_header_bytes, file_header, host_order, info_bytes, tracks_bytes, AudioTrack, VideoTrack,
};
use crate::{total_millis, Audio, Slide, SlideShow};

verus! {

#[derive(Debug)]
pub struct Error {
    pub inner: ErrorKind,
}

#[derive(Debug)]
pub enum ErrorKind {
    /// A slide's image does not have the size of the video.
    MismatchingDimensions,
    /// There is no slide to show.
    EmptySequence,
    /// A track number that does not fit in one byte.
    UnsupportedTrackNumber,
    /// A slide's audio is missing, or in a form the audio track cannot carry.
    UnsupportedAudio,
    /// A sample size that is not implemented.
    UnsupportedBitDepth(u16),
    /// A slide's image could not be decoded.
    Image(image::ImageError),
    /// A slide's audio could not be decoded.
    Wav(std::io::Error),
}

impl From<ErrorKind> for Error {
    fn from(inner: ErrorKind) -> (r: Error)
        ensures
            r.inner == inner,
    {
        Error { inner }
    }
}

impl vstd::std_specs::convert::FromSpecImpl<ErrorKind> for Error {
    open spec fn obeys_from_spec() -> bool {
        true
    }

    open spec fn from_spec(inner: ErrorKind) -> Error {
        Error { inner }
    }
}

/// Where the muxer stands.
pub enum Progress {
    /// Nothing is written.
    Initial,
    /// Header and tracks are written; the slide with this index comes next.
    BeforeFrame(usize),
    /// The file is complete.
    Done,
}

/// The progress after one successful step, with `n` slides.
pub open spec fn next_progress(p: Progress, n: nat) -> Progress {
    match p {
        Progress::Initial => Progress::BeforeFrame(0),
        Progress::BeforeFrame(i) => if i + 1 >= n {
            Progress::Done
        } else {
            Progress::BeforeFrame((i + 1) as usize)
        },
        Progress::Done => Progress::Done,
    }
}

/// Successful steps that remain before the file is complete, with `n` slides.
pub open spec fn steps_left(p: Progress, n: nat) -> nat {
    match p {
        Progress::Initial => n + 1,
        Progress::BeforeFrame(i) => (n - i) as nat,
        Progress::Done => 0,
    }
}

/// Audio that a slide may carry with the track `a`: none is needed without a track; with one,
/// the file decodes to 8-, 16- or 32-bit samples that fit, at a rate that gives chunks a sample.
pub open spec fn audio_accepted(a: Option<AudioTrack>, audio: Seq<u8>) -> bool {
    match a {
        None => true,
        Some(t) => riff_readable(audio) && match wav_of(audio) {
            None => false,
            Some((_, _, _, _, depth, values)) => {
                &&& depth == 8 || depth == 16 || depth == 32
                &&& values.len() * (depth / 8) <= 0x1_0000_0000_0000
                &&& chunk_samples(t.sampling_frequency as nat) > 0
            },
        },
    }
}

/// The audio of a slide, decoded for the track `a`: none without a track. Audio that the track
/// accepts decodes to samples it can carry, in the track's byte order.
fn slide_pcm(a: &Option<AudioTrack>, audio: &[u8]) -> (r: Result<Option<PcmData>, Error>)
    requires
        a matches Some(t) ==> t.wf(),
    ensures
        a is None ==> r == Ok::<Option<PcmData>, Error>(None),
        audio_accepted(*a, audio@) ==> (r matches Ok(p) && !audio_fault(*a, p)),
{
    match a {
        Some(t) => {
            if !check_riff(audio) {
                return Err(Error { inner: ErrorKind::UnsupportedAudio });
            }
            match decode_wav(audio) {
                Ok((h, samples)) => {
                    let ghost s0 = samples;
                    let r = pcm_data(samples, t.big_endian());
                    proof {
                        if audio_accepted(*a, audio@) {
                            assert(wav_of(audio@) == Some((h.channel_count, h.bytes_per_second, h.bytes_per_sample, h.bits_per_sample, s0.depth(), s0.values())));
                            let values = s0.values();
                            match s0 {
                                Samples::Eight(v) => {
                                    assert(values.len() == v@.len());
                                    assert(v@.len() * 1 <= 0x1_0000_0000_0000);
                                    assert(pcm_fits(r->Ok_0.bytes@.len()));
                                },
                                Samples::Sixteen(v) => {
                                    assert(values.len() == v@.len());
                                    assert(v@.len() * 2 <= 0x1_0000_0000_0000);
                                    assert(pcm_fits(r->Ok_0.bytes@.len()));
                                },
                                Samples::ThirtyTwoFloat(v) => {
                                    assert(values.len() == v@.len());
                                    assert(v@.len() * 4 <= 0x1_0000_0000_0000);
                                    assert(pcm_fits(r->Ok_0.bytes@.len()));
                                },
                                _ => {},
                            }
                        }
                    }
                    match r {
                        Ok(p) => Ok(Some(p)),
                        Err(e) => Err(e),
                    }
                },
                Err(io) => Err(Error { inner: ErrorKind::Wav(io) }),
            }
        },
        None => Ok(None),
    }
}

/// Once nothing is pending, what was consumed followed by what is ready is everything written:
/// the chunks a driver consumed, followed by `tail()`, are the whole file.
pub proof fn lemma_output_complete(e: Encoder)
    requires
        e.settled(),
    ensures
        e.buffer().dropped() + e.buffer().ready_view() == e.buffer().stream(),
{
    assert(e.buffer().dropped() + e.buffer().ready_view() =~= e.buffer().stream());
}

/// A progress that a muxer of `n` slides can be in.
pub open spec fn valid_progress(p: Progress, n: nat) -> bool {
    match p {
        Progress::BeforeFrame(i) => i < n,
        _ => true,
    }
}

/// Each successful step that is not on a complete file brings completion one step closer.
pub proof fn lemma_step_progress(p: Progress, n: nat)
    requires
        valid_progress(p, n),
        0 < n <= usize::MAX,
    ensures
        valid_progress(next_progress(p, n), n),
        !(p is Done) ==> steps_left(next_progress(p, n), n) + 1 == steps_left(p, n),
        (next_progress(p, n) is Done) <==> steps_left(next_progress(p, n), n) == 0,
{
}

pub proof fn lemma_total_step(s: Seq<Slide>, i: int)
    requires
        0 <= i < s.len(),
    ensures
        total_millis(s.take(i + 1)) == total_millis(s.take(i)) + s[i].millis,
{
    assert(s.take(i + 1).drop_last() =~= s.take(i));
}

pub proof fn lemma_total_prefix(s: Seq<Slide>, i: int)
    requires
        0 <= i <= s.len(),
    ensures
        total_millis(s.take(i)) <= total_millis(s),
    decreases s.len() - i,
{
    if i == s.len() {
        assert(s.take(i) =~= s);
    } else {
        lemma_total_step(s, i);
        lemma_total_prefix(s, i + 1);
    }
}

/// The total duration of `slides`, in ticks.
pub(crate) fn total_ticks(slides: &[Slide]) -> (r: u64)
    requires
        total_millis(slides@) < 0x20_0000_0000_0000,
    ensures
        r == total_millis(slides@),
{
    let mut sum: u64 = 0;
    let mut k: usize = 0;
    while k < slides.len()
        invariant
            k <= slides@.len(),
            sum == total_millis(slides@.take(k as int)),
            total_millis(slides@) < 0x20_0000_0000_0000,
        decreases slides@.len() - k,
    {
        proof {
            lemma_total_step(slides@, k as int);
            lemma_total_prefix(slides@, k + 1);
        }
        sum = sum + slides[k].millis;
        k = k + 1;
    }
    proof {
        assert(slides@.take(k as int) =~= slides@);
    }
    sum
}

struct EncoderState {
    /// Ticks written so far.
    passed_time: u64,
}

/// Writes a slide show as WebM into a [`PagedVec`], one step at a time.
pub struct Encoder<'slides> {
    slides: &'slides [Slide],
    audio: Option<AudioTrack>,
    video: VideoTrack,
    progress: Progress,
    vec: PagedVec,
    state: EncoderState,
}

impl<'slides> Encoder<'slides> {
    pub closed spec fn progress_view(&self) -> Progress {
        self.progress
    }

    pub closed spec fn slides_view(&self) -> Seq<Slide> {
        self.slides@
    }

    pub closed spec fn video_view(&self) -> VideoTrack {
        self.video
    }

    pub closed spec fn audio_view(&self) -> Option<AudioTrack> {
        self.audio
    }

    /// The buffer written into.
    pub closed spec fn buffer(&self) -> PagedVec {
        self.vec
    }

    /// Ticks written so far: where the next slide starts.
    pub closed spec fn passed(&self) -> nat {
        self.state.passed_time as nat
    }

    pub closed spec fn wf(&self) -> bool {
        &&& self.vec.wf()
        &&& self.vec.pending() == Seq::<u8>::empty()
        &&& 0 < self.slides@.len() <= usize::MAX
        &&& total_millis(self.slides@) < 0x20_0000_0000_0000
        &&& frame_fits((4 * self.video.width * self.video.height) as nat)
        &&& self.audio matches Some(t) ==> t.wf()
        &&& match self.progress {
            Progress::Initial => self.state.passed_time == 0,
            Progress::BeforeFrame(i) => i < self.slides@.len() && self.state.passed_time
                == total_millis(self.slides@.take(i as int)),
            Progress::Done => self.state.passed_time == total_millis(self.slides@),
        }
    }

    /// The number of slides.
    pub open spec fn len(&self) -> nat {
        self.slides_view().len()
    }

    /// What the muxer keeps true between steps, as callers may rely on it: every byte written is
    /// in the buffer, there are slides and no more than a `usize` counts, and the progress names
    /// one of them.
    pub open spec fn settled(&self) -> bool {
        &&& self.buffer().pending() == Seq::<u8>::empty()
        &&& 0 < self.len() <= usize::MAX
        &&& valid_progress(self.progress_view(), self.len())
    }

    /// A muxer for `show` that writes into `vec`.
    pub fn new(show: &SlideShow<'slides>, vec: PagedVec) -> (r: Self)
        requires
            show.slides@.len() > 0,
            total_millis(show.slides@) < 0x20_0000_0000_0000,
            frame_fits((4 * show.width * show.height) as nat),
            vec.wf(),
            vec.pending() == Seq::<u8>::empty(),
        ensures
            r.wf(),
            r.settled(),
            r.progress_view() == Progress::Initial,
            r.slides_view() == show.slides@,
            r.video_view().width == show.width,
            r.video_view().height == show.height,
            r.buffer() == vec,
            match show.audio {
                Some(Audio::Pcm { sampling_frequency, channels, bits_per_sample }) => {
                    &&& r.audio_view() is Some
                    &&& r.audio_view()->Some_0.sampling_frequency == sampling_frequency
                    &&& r.audio_view()->Some_0.channels == channels
                    &&& r.audio_view()->Some_0.bits_per_sample == bits_per_sample
                },
                None => r.audio_view() is None,
            },
    {
        let audio = match &show.audio {
            Some(Audio::Pcm { sampling_frequency, channels, bits_per_sample }) => {
                let mut track = AudioTrack {
                    sampling_frequency: *sampling_frequency,
                    channels: *channels,
                    bits_per_sample: *bits_per_sample,
                    uid: mk_track_uid(TRACK_AUDIO),
                    host_order: host_order(),
                    codec: String::new(),
                };
                track.codec = if *bits_per_sample == 32 {
                    track.float_format()
                } else {
                    track.pcm_format()
                };
                Some(track)
            },
            None => None,
        };
        let video = VideoTrack { width: show.width, height: show.height, uid: mk_track_uid(TRACK_VIDEO) };
        let count = show.slides.len();
        assert(count == show.slides@.len());
        Encoder {
            slides: show.slides,
            audio,
            video,
            progress: Progress::Initial,
            vec,
            state: EncoderState { passed_time: 0 },
        }
    }

    /// Does one unit of work: writes the header and tracks, or the slide that comes next, whose
    /// image and audio are decoded from the bytes of their files (without an audio track the
    /// audio is not read).
    ///
    /// A failure of I/O inside the image decoder is returned as the outer error; media that
    /// cannot be decoded or used are the inner error. Either way nothing is written and the muxer is left
    /// as it was, so that calling again gives the same result.
    #[verifier::rlimit(100)]
    pub fn step(&mut self, image: &[u8], audio: &[u8]) -> (r: Result<Result<(), Error>, std::io::Error>)
        requires
            old(self).wf(),
        ensures
            final(self).wf(),
            final(self).slides_view() == old(self).slides_view(),
            final(self).video_view() == old(self).video_view(),
            final(self).audio_view() == old(self).audio_view(),
            final(self).buffer().dropped() == old(self).buffer().dropped(),
            final(self).settled(),
            old(self).buffer().ready_view().is_prefix_of(final(self).buffer().ready_view()),
            !(r matches Ok(Ok(_))) ==> *final(self) == *old(self),
            r matches Ok(Ok(_)) ==> final(self).progress_view() == next_progress(
                old(self).progress_view(),
                old(self).len(),
            ),
            old(self).progress_view() is Done ==> (r matches Ok(Ok(_))) && *final(self) == *old(
                self,
            ),
            old(self).progress_view() is Initial ==> {
                &&& r matches Ok(Ok(_))
                &&& final(self).buffer().stream() == old(self).buffer().stream() + file_header(
                    old(self).video_view(),
                    old(self).audio_view(),
                    total_millis(old(self).slides_view()),
                )
            },
            match old(self).progress_view() {
                Progress::BeforeFrame(i) => match image_of(image@) {
                    None => !(r matches Ok(Ok(_))),
                    Some((w, h, f)) => {
                        &&& audio_accepted(old(self).audio_view(), audio@) && (w != old(
                            self,
                        ).video_view().width || h != old(self).video_view().height) ==> r
                            == Ok::<Result<(), Error>, std::io::Error>(
                            Err(Error { inner: ErrorKind::MismatchingDimensions }),
                        )
                        &&& r matches Ok(Ok(_)) ==> {
                            let last = i + 1 == old(self).len();
                            let millis = old(self).slides_view()[i as int].millis as nat;
                            &&& w == old(self).video_view().width
                            &&& h == old(self).video_view().height
                            &&& final(self).passed() == old(self).passed() + millis
                            &&& exists|p: Option<PcmData>|
                                final(self).buffer().stream() == old(self).buffer().stream()
                                    + #[trigger] slide_bytes(
                                    old(self).audio_view(),
                                    old(self).passed(),
                                    millis,
                                    f,
                                    p,
                                    last,
                                )
                        }
                    },
                },
                _ => true,
            },
    {
        match self.progress {
            Progress::BeforeFrame(_) => {
                let pcm = match slide_pcm(&self.audio, audio) {
                    Ok(p) => p,
                    Err(e) => {
                        return Ok(Err(e));
                    },
                };
                let frame = match decode_image(image) {
                    Ok(f) => f,
                    Err(e) => {
                        return match image_io_error(e) {
                            Ok(io) => Err(io),
                            Err(e) => Ok(Err(Error { inner: ErrorKind::Image(e) })),
                        };
                    },
                };
                let r = self.step_decoded(&frame, &pcm);
                proof {
                    assert(image_of(image@) == Some((frame.width, frame.height, frame.rgba@)));
                    if let Progress::BeforeFrame(i) = old(self).progress {
                        if audio_accepted(old(self).audio, audio@) && (frame.width
                            != old(self).video.width || frame.height != old(self).video.height) {
                            assert(!audio_fault(old(self).audio, pcm));
                            assert(r == Err::<(), Error>(
                                Error { inner: ErrorKind::MismatchingDimensions },
                            ));
                        }
                        if r is Ok {
                            let last = i + 1 == old(self).len();
                            let millis = old(self).slides_view()[i as int].millis as nat;
                            assert(self.vec.stream() == old(self).vec.stream() + slide_bytes(
                                old(self).audio_view(),
                                old(self).passed(),
                                millis,
                                frame.rgba@,
                                pcm,
                                last,
                            ));
                            let f = image_of(image@)->Some_0.2;
                            assert(f == frame.rgba@);
                            assert(self.buffer().stream() == old(self).buffer().stream()
                                + slide_bytes(
                                old(self).audio_view(),
                                old(self).passed(),
                                millis,
                                f,
                                pcm,
                                last,
                            ));
                            assert(exists|p: Option<PcmData>| self.buffer().stream()
                                == old(self).buffer().stream() + #[trigger] slide_bytes(
                                old(self).audio_view(),
                                old(self).passed(),
                                millis,
                                image_of(image@)->Some_0.2,
                                p,
                                last,
                            ));
                        }
                    }
                }
                Ok(r)
            },
            _ => {
                let none: Option<PcmData> = None;
                Ok(self.step_decoded(&Frame { width: 0, height: 0, rgba: Vec::new() }, &none))
            },
        }
    }

    /// Does one unit of work with the slide's decoded media: writes the header and tracks, or
    /// one slide. The media are only read while a slide is next.
    ///
    /// Audio that the audio track cannot take and an image of the wrong size are rejected, in
    /// that order, before anything is written: the muxer is then left exactly as it was.
    pub fn step_decoded(&mut self, frame: &Frame, pcm: &Option<PcmData>) -> (r: Result<(), Error>)
        requires
            old(self).wf(),
            frame.wf(),
        ensures
            final(self).wf(),
            final(self).slides_view() == old(self).slides_view(),
            final(self).video_view() == old(self).video_view(),
            final(self).audio_view() == old(self).audio_view(),
            final(self).buffer().dropped() == old(self).buffer().dropped(),
            r is Ok ==> final(self).progress_view() == next_progress(
                old(self).progress_view(),
                old(self).len(),
            ),
            final(self).settled(),
            old(self).buffer().ready_view().is_prefix_of(final(self).buffer().ready_view()),
            r is Ok ==> steps_left(final(self).progress_view(), final(self).len()) + 1
                == steps_left(old(self).progress_view(), old(self).len()) || old(
                self,
            ).progress_view() is Done,
            r is Err ==> *final(self) == *old(self),
            match old(self).progress_view() {
                Progress::Done => r is Ok && *final(self) == *old(self),
                Progress::Initial => {
                    &&& r is Ok
                    &&& final(self).buffer().stream() == old(self).buffer().stream() + file_header(
                        old(self).video_view(),
                        old(self).audio_view(),
                        total_millis(old(self).slides_view()),
                    )
                },
                Progress::BeforeFrame(i) => {
                    if audio_fault(old(self).audio_view(), *pcm) {
                        r == Err::<(), Error>(Error { inner: ErrorKind::UnsupportedAudio })
                    } else if frame.width != old(self).video_view().width || frame.height != old(
                        self,
                    ).video_view().height {
                        r == Err::<(), Error>(Error { inner: ErrorKind::MismatchingDimensions })
                    } else {
                        &&& r is Ok
                        &&& final(self).passed() == old(self).passed() + old(
                            self,
                        ).slides_view()[i as int].millis
                        &&& final(self).buffer().stream() == old(self).buffer().stream()
                            + slide_bytes(
                            old(self).audio_view(),
                            old(self).passed(),
                            old(self).slides_view()[i as int].millis as nat,
                            frame.rgba@,
                            *pcm,
                            i + 1 == old(self).len(),
                        )
                    }
                },
            },
    {
        match self.progress {
            Progress::Done => Ok(()),
            Progress::Initial => {
                self.encode_header();
                proof {
                    lemma_step_progress(old(self).progress, old(self).slides@.len());
                    lemma_ready_appended(old(self).vec, self.vec, file_header(
                        old(self).video,
                        old(self).audio,
                        total_millis(old(self).slides@),
                    ));
                }
                Ok(())
            },
            Progress::BeforeFrame(i) => {
                match &self.audio {
                    Some(t) => match pcm {
                        None => {
                            return Err(Error { inner: ErrorKind::UnsupportedAudio });
                        },
                        Some(p) => {
                            if p.sample_width < 1 || p.sample_width > 4 || t.sampling_frequency
                                / CHUNK_MILLIS == 0 || p.bytes.len() as u64 > 0x1_0000_0000_0000 {
                                return Err(Error { inner: ErrorKind::UnsupportedAudio });
                            }
                        },
                    },
                    None => {},
                }
                if frame.width != self.video.width || frame.height != self.video.height {
                    return Err(Error { inner: ErrorKind::MismatchingDimensions });
                }
                self.encode_slide(i, frame, pcm);
                proof {
                    lemma_step_progress(old(self).progress, old(self).slides@.len());
                }
                proof {
                    lemma_ready_appended(old(self).vec, self.vec, slide_bytes(
                        old(self).audio,
                        old(self).state.passed_time as nat,
                        old(self).slides@[i as int].millis as nat,
                        frame.rgba@,
                        *pcm,
                        i + 1 == old(self).slides@.len(),
                    ));
                }
                Ok(())
            },
        }
    }

    /// Writes the EBML header, opens the Segment, and writes Info and Tracks.
    fn encode_header(&mut self)
        requires
            old(self).wf(),
            old(self).progress_view() is Initial,
        ensures
            final(self).wf(),
            final(self).slides_view() == old(self).slides_view(),
            final(self).video_view() == old(self).video_view(),
            final(self).audio_view() == old(self).audio_view(),
            final(self).buffer().dropped() == old(self).buffer().dropped(),
            final(self).progress_view() == Progress::BeforeFrame(0),
            final(self).buffer().stream() == old(self).buffer().stream() + file_header(
                old(self).video_view(),
                old(self).audio_view(),
                total_millis(old(self).slides_view()),
            ),
    {
        let total = total_ticks(self.slides);
        self.vec.append(EBML, ebml_header_bytes().as_slice());
        self.vec.open_segment();
        let info = info_bytes(total);
        self.vec.append(INFO, info.as_slice());
        let tracks = tracks_bytes(&self.video, &self.audio);
        self.vec.append(TRACKS, tracks.as_slice());
        self.progress = Progress::BeforeFrame(0);
        proof {
            assert(self.slides@.take(0) =~= Seq::<Slide>::empty());
        }
    }

    /// Writes slide `i`, whose media the tracks can take.
    #[verifier::rlimit(40)]
    fn encode_slide(&mut self, i: usize, frame: &Frame, pcm: &Option<PcmData>)
        requires
            old(self).wf(),
            old(self).progress_view() == Progress::BeforeFrame(i),
            frame.wf(),
            !audio_fault(old(self).audio_view(), *pcm),
            frame.width == old(self).video_view().width,
            frame.height == old(self).video_view().height,
        ensures
            final(self).wf(),
            final(self).slides_view() == old(self).slides_view(),
            final(self).video_view() == old(self).video_view(),
            final(self).audio_view() == old(self).audio_view(),
            final(self).buffer().dropped() == old(self).buffer().dropped(),
            final(self).progress_view() == next_progress(old(self).progress_view(), old(self).len()),
            final(self).passed() == old(self).passed() + old(self).slides_view()[i as int].millis,
            final(self).buffer().stream() == old(self).buffer().stream() + slide_bytes(
                old(self).audio_view(),
                old(self).passed(),
                old(self).slides_view()[i as int].millis as nat,
                frame.rgba@,
                *pcm,
                i + 1 == old(self).len(),
            ),
    {
        proof {
            lemma_total_step(self.slides@, i as int);
            lemma_total_prefix(self.slides@, i + 1);
        }
        let start = self.state.passed_time;
        let millis = self.slides[i].millis;
        let ghost before = self.vec.stream();
        match (&self.audio, pcm) {
            (Some(t), Some(p)) => {
                let samples = (t.sampling_frequency / CHUNK_MILLIS) as usize;
                write_audio(
                    &mut self.vec,
                    start,
                    p.bytes.as_slice(),
                    samples,
                    p.sample_width,
                    t.sampling_frequency,
                );
            },
            _ => {},
        }
        let ghost after_audio = self.vec.stream();
        assert(after_audio == before + slide_audio(self.audio, start as nat, *pcm));
        write_frames(&mut self.vec, start, millis, frame.rgba.as_slice());
        let end = start + millis;
        if i + 1 == self.slides.len() {
            write_frames(&mut self.vec, end, 0, frame.rgba.as_slice());
            self.vec.append(CUES, &[]);
            self.progress = Progress::Done;
            proof {
                assert(self.slides@.take(i + 1) =~= self.slides@);
            }
        } else {
            self.progress = Progress::BeforeFrame(i + 1);
        }
        self.state.passed_time = end;
        proof {
            assert(self.vec.stream() =~= before + slide_bytes(
                self.audio,
                start as nat,
                millis as nat,
                frame.rgba@,
                *pcm,
                i + 1 == self.slides@.len(),
            ));
        }
    }

    /// The bytes written and not yet consumed.
    pub fn ready(&self) -> (r: &[u8])
        ensures
            r@ == self.buffer().ready_view(),
    {
        self.vec.ready()
    }

    /// Drops the first `len` ready bytes, which the caller has persisted.
    pub fn consume(&mut self, len: usize)
        requires
            old(self).wf(),
            len <= old(self).buffer().ready_view().len(),
        ensures
            final(self).wf(),
            final(self).settled(),
            final(self).buffer().ready_view() == old(self).buffer().ready_view().skip(len as int),
            final(self).buffer().ready_view().len() == old(self).buffer().ready_view().len() - len,
            final(self).buffer().dropped() == old(self).buffer().dropped() + old(
                self,
            ).buffer().ready_view().take(len as int),
            final(self).buffer().stream() == old(self).buffer().stream(),
            final(self).progress_view() == old(self).progress_view(),
            final(self).slides_view() == old(self).slides_view(),
            final(self).video_view() == old(self).video_view(),
            final(self).audio_view() == old(self).audio_view(),
            final(self).passed() == old(self).passed(),
    {
        self.vec.consume(len)
    }

    /// The slide whose media the next step reads, if a slide comes next.
    pub fn next_slide(&self) -> (r: Option<usize>)
        ensures
            match self.progress_view() {
                Progress::BeforeFrame(i) => r == Some(i),
                _ => r is None,
            },
    {
        match self.progress {
            Progress::BeforeFrame(i) => Some(i),
            _ => None,
        }
    }

    /// Whether the file has an audio track, whose files the driver then reads.
    pub fn has_audio(&self) -> (r: bool)
        ensures
            r == (self.audio_view() is Some),
    {
        self.audio.is_some()
    }

    /// Whether the file is complete.
    pub fn done(&self) -> (r: bool)
        ensures
            r == (self.progress_view() is Done),
    {
        match self.progress {
            Progress::Done => true,
            _ => false,
        }
    }

    /// The bytes left once the file is complete.
    pub fn tail(&self) -> (r: &[u8])
        ensures
            r@ == self.buffer().ready_view(),
    {
        self.vec.ready()
    }
}

/// The progress of a muxer of `n` slides after `k` successful steps from its start.
pub open spec fn progress_after(n: nat, k: nat) -> Progress
    decreases k,
{
    if k == 0 {
        Progress::Initial
    } else {
        next_progress(progress_after(n, (k - 1) as nat), n)
    }
}

/// A muxer of `n` slides completes the file after exactly `n + 1` successful steps: the header
/// step, then one per slide. Before that it is never done.
pub proof fn lemma_steps_to_done(n: nat, k: nat)
    requires
        0 < n <= usize::MAX,
    ensures
        valid_progress(progress_after(n, k), n),
        (progress_after(n, k) is Done) <==> k >= n + 1,
        k <= n + 1 ==> steps_left(progress_after(n, k), n) == n + 1 - k,
    decreases k,
{
    if k > 0 {
        lemma_steps_to_done(n, (k - 1) as nat);
        lemma_step_progress(progress_after(n, (k - 1) as nat), n);
    }
}

} // verus!
