//! The clusters of a slide: its audio cut into short chunks, then its frame in blocks of at most
//! a second.
use vstd::prelude::*;
use vstd::arithmetic::div_mod::{lemma_fundamental_div_mod, lemma_mod_bound};
use vstd::arithmetic::mul::{lemma_mul_inequality, lemma_mul_is_distributive_add_other_way};
use vstd::slice::slice_subrange;
use crate::ebml::{
    be_fixed, element, element_bytes, lemma_be_fixed_len, lemma_element_len, push_all,
    uint_element, uint_element_bytes, BLOCK, BLOCK_DURATION, BLOCK_GROUP, CLUSTER, CUES, TIMECODE,
};
use crate::encoder::{Error, ErrorKind};
use crate::paged_vec::PagedVec;
use crate::tracks::AudioTrack;

verus! {

/// Track number of the video track.
pub const TRACK_VIDEO: u64 = 1;
/// Track number of the audio track.
pub const TRACK_AUDIO: u64 = 2;
/// Nanoseconds per tick.
pub const TIMESCALE: u64 = 1_000_000;
/// Audio is cut into chunks of about this many milliseconds.
pub const CHUNK_MILLIS: u32 = 33;

/// A Block with one frame: track number, timecode relative to its cluster, no flags, the data.
pub open spec fn block(num: u64, ts: i16, data: Seq<u8>) -> Seq<u8> {
    seq![(num + 0x80) as u8] + be_fixed(ts as u16 as nat, 2) + seq![0u8] + data
}

/// Samples per audio chunk at a sampling frequency.
pub open spec fn chunk_samples(rate: nat) -> nat {
    rate / CHUNK_MILLIS as nat
}

/// The offset of the audio chunk starting at sample `start`, in ticks, rounded to nearest.
pub open spec fn sample_offset(start: nat, rate: nat) -> nat {
    (2000 * start + rate) / (2 * rate)
}

/// Number of chunks of `size` bytes that `len` bytes fill, the last one possibly short.
pub open spec fn chunk_count(len: nat, size: nat) -> nat {
    if size == 0 {
        0
    } else {
        ((len + size - 1) as nat / size) as nat
    }
}

/// The `j`-th chunk of `size` bytes.
pub open spec fn chunk_of(data: Seq<u8>, j: nat, size: nat) -> Seq<u8> {
    let end: int = if (j + 1) * size < data.len() { ((j + 1) * size) as int } else { data.len() as int };
    data.subrange((j * size) as int, end)
}

pub proof fn lemma_block_len(num: u64, ts: i16, data: Seq<u8>)
    ensures
        block(num, ts, data).len() == data.len() + 4,
{
    lemma_be_fixed_len(ts as u16 as nat, 2);
}

/// Builds a Block. Track numbers take one byte here, so they must stay below 128.
pub fn build_block(num: u64, ts: i16, data: &[u8]) -> (r: Result<Vec<u8>, Error>)
    ensures
        num < 0x80 ==> r is Ok && r->Ok_0@ == block(num, ts, data@),
        num >= 0x80 ==> r == Err::<Vec<u8>, Error>(
            Error { inner: ErrorKind::UnsupportedTrackNumber },
        ),
{
    if num >= 0x80 {
        return Err(Error { inner: ErrorKind::UnsupportedTrackNumber });
    }
    let mut r: Vec<u8> = Vec::new();
    r.push((num + 0x80) as u8);
    let t = ts as u16;
    r.push((t / 256) as u8);
    r.push((t % 256) as u8);
    r.push(0u8);
    r.extend_from_slice(data);
    proof {
        assert(be_fixed(t as nat, 2) =~= seq![(t / 256) as u8, (t % 256) as u8]) by {
            reveal_with_fuel(be_fixed, 3);
        }
        assert(r@ =~= block(num, ts, data@));
    }
    Ok(r)
}

/// The largest decoded frame, in bytes, that the muxer takes.
pub open spec fn frame_fits(len: nat) -> bool {
    len <= 0x1_0000_0000_0000
}

/// The largest decoded audio of one slide, in bytes, that the muxer takes.
pub open spec fn pcm_fits(len: nat) -> bool {
    len <= 0x1_0000_0000_0000
}

/// A Cluster holding one BlockGroup, at an absolute timecode.
pub open spec fn cluster(ts: nat, group: Seq<u8>) -> Seq<u8> {
    element(CLUSTER, uint_element(TIMECODE, ts) + element(BLOCK_GROUP, group))
}

/// A Cluster with one chunk of audio.
pub open spec fn audio_cluster(ts: nat, data: Seq<u8>) -> Seq<u8> {
    cluster(ts, element(BLOCK, block(TRACK_AUDIO, 0, data)))
}

/// A Cluster with one video frame shown for `duration` ticks.
pub open spec fn video_cluster(ts: nat, duration: nat, frame: Seq<u8>) -> Seq<u8> {
    cluster(
        ts,
        element(BLOCK, block(TRACK_VIDEO, 0, frame)) + uint_element(BLOCK_DURATION, duration),
    )
}

/// A frame shown from `ts` for `remaining` ticks, as consecutive blocks of at most a second. There
/// is always at least one block.
pub open spec fn video_run(ts: nat, remaining: nat, frame: Seq<u8>) -> Seq<u8>
    decreases remaining,
{
    if remaining <= 1000 {
        video_cluster(ts, remaining, frame)
    } else {
        video_cluster(ts, 1000, frame) + video_run(ts + 1000, (remaining - 1000) as nat, frame)
    }
}

/// The audio chunks of `data` from the `j`-th on, each of `size` bytes and `samples` samples,
/// placed after `start` by their first sample.
pub open spec fn audio_run(
    start: nat,
    data: Seq<u8>,
    size: nat,
    samples: nat,
    rate: nat,
    j: nat,
) -> Seq<u8>
    decreases chunk_count(data.len(), size) - j,
{
    if j < chunk_count(data.len(), size) {
        audio_cluster(start + sample_offset(j * samples, rate), chunk_of(data, j, size))
            + audio_run(start, data, size, samples, rate, j + 1)
    } else {
        Seq::empty()
    }
}

/// A decoded slide image: 8-bit RGBA, row by row.
pub struct Frame {
    pub width: u32,
    pub height: u32,
    pub rgba: Vec<u8>,
}

impl Frame {
    pub open spec fn wf(&self) -> bool {
        self.rgba@.len() == 4 * self.width * self.height
    }
}

/// The decoded audio of one slide: samples as they go into blocks, `sample_width` bytes each.
pub struct PcmData {
    pub bytes: Vec<u8>,
    pub sample_width: usize,
}

/// The audio of a slide that the track cannot take: missing, of an unknown sample size, at a
/// rate too low for a chunk to hold a sample, or too long.
pub open spec fn audio_fault(a: Option<AudioTrack>, pcm: Option<PcmData>) -> bool {
    match a {
        Some(t) => match pcm {
            None => true,
            Some(p) => !(1 <= p.sample_width <= 4) || chunk_samples(t.sampling_frequency as nat)
                == 0 || !pcm_fits(p.bytes@.len()),
        },
        None => false,
    }
}

/// The audio clusters of a slide starting at `start`.
pub open spec fn slide_audio(a: Option<AudioTrack>, start: nat, pcm: Option<PcmData>) -> Seq<u8> {
    match (a, pcm) {
        (Some(t), Some(p)) => {
            let samples = chunk_samples(t.sampling_frequency as nat);
            audio_run(
                start,
                p.bytes@,
                (samples * p.sample_width) as nat,
                samples,
                t.sampling_frequency as nat,
                0,
            )
        },
        _ => Seq::empty(),
    }
}

/// Everything written for one slide: its audio, then its frame for its duration; after the last
/// slide, the frame once more with no duration and the (empty) Cues.
pub open spec fn slide_bytes(
    a: Option<AudioTrack>,
    start: nat,
    millis: nat,
    frame: Seq<u8>,
    pcm: Option<PcmData>,
    last: bool,
) -> Seq<u8> {
    slide_audio(a, start, pcm) + video_run(start, millis, frame) + if last {
        video_cluster(start + millis, 0, frame) + element(CUES, Seq::empty())
    } else {
        Seq::empty()
    }
}

/// Writes one Cluster.
pub(crate) fn write_cluster(vec: &mut PagedVec, ts: u64, group: &[u8])
    requires
        old(vec).wf(),
        old(vec).pending() == Seq::<u8>::empty(),
        group@.len() <= 0x10_0000_0000_0000,
    ensures
        final(vec).wf(),
        final(vec).pending() == Seq::<u8>::empty(),
        final(vec).stream() == old(vec).stream() + cluster(ts as nat, group@),
        final(vec).dropped() == old(vec).dropped(),
{
    let mut p = uint_element_bytes(TIMECODE, ts);
    proof {
        lemma_element_len(BLOCK_GROUP, group@);
    }
    push_all(&mut p, element_bytes(BLOCK_GROUP, group));
    vec.append(CLUSTER, p.as_slice());
}

/// Writes a frame shown from `start` for `millis` ticks.
pub(crate) fn write_frames(vec: &mut PagedVec, start: u64, millis: u64, frame: &[u8])
    requires
        old(vec).wf(),
        old(vec).pending() == Seq::<u8>::empty(),
        frame_fits(frame@.len()),
        start + millis < 0x20_0000_0000_0000,
    ensures
        final(vec).wf(),
        final(vec).pending() == Seq::<u8>::empty(),
        final(vec).stream() == old(vec).stream() + video_run(start as nat, millis as nat, frame@),
        final(vec).dropped() == old(vec).dropped(),
{
    let blk = match build_block(TRACK_VIDEO, 0, frame) {
        Ok(b) => b,
        Err(_) => Vec::new(),
    };
    proof {
        lemma_block_len(TRACK_VIDEO, 0, frame@);
        lemma_element_len(BLOCK, blk@);
    }
    let block_el = element_bytes(BLOCK, blk.as_slice());
    let ghost target = old(vec).stream() + video_run(start as nat, millis as nat, frame@);
    let mut ts = start;
    let mut remaining = millis;
    while remaining > 1000
        invariant
            vec.wf(),
            vec.pending() == Seq::<u8>::empty(),
            vec.dropped() == old(vec).dropped(),
            vec.stream() + video_run(ts as nat, remaining as nat, frame@) == target,
            ts + remaining < 0x20_0000_0000_0000,
            block_el@ == element(BLOCK, block(TRACK_VIDEO, 0, frame@)),
            block_el@.len() <= frame@.len() + 32,
            frame_fits(frame@.len()),
        decreases remaining,
    {
        let mut group = block_el.clone();
        assert(group@ =~= block_el@);
        push_all(&mut group, uint_element_bytes(BLOCK_DURATION, 1000));
        let ghost before = vec.stream();
        write_cluster(vec, ts, group.as_slice());
        assert(before + video_run(ts as nat, remaining as nat, frame@) =~= vec.stream()
            + video_run((ts + 1000) as nat, (remaining - 1000) as nat, frame@));
        ts = ts + 1000;
        remaining = remaining - 1000;
    }
    let mut group = block_el.clone();
    assert(group@ =~= block_el@);
    push_all(&mut group, uint_element_bytes(BLOCK_DURATION, remaining));
    write_cluster(vec, ts, group.as_slice());
}

/// A chunk that the count includes starts inside the data.
proof fn lemma_chunk_start(len: nat, size: nat, j: nat)
    requires
        size > 0,
        j < chunk_count(len, size),
    ensures
        j * size < len,
{
    let x = (len + size - 1) as int;
    lemma_fundamental_div_mod(x, size as int);
    lemma_mod_bound(x, size as int);
    let c = x / size as int;
    let m = x % size as int;
    assert(c * size <= x) by (nonlinear_arith)
        requires x == size * c + m, m >= 0;
    assert(j <= c - 1);
    lemma_mul_inequality(j as int, c - 1, size as int);
    assert((c - 1) * size == c * size - size) by (nonlinear_arith);
}

/// Writes the audio of a slide that starts at `start`, in chunks of `samples` samples.
pub(crate) fn write_audio(
    vec: &mut PagedVec,
    start: u64,
    data: &[u8],
    samples: usize,
    width: usize,
    rate: u32,
)
    requires
        old(vec).wf(),
        old(vec).pending() == Seq::<u8>::empty(),
        1 <= width <= 4,
        1 <= samples,
        samples == chunk_samples(rate as nat),
        samples <= 0x1000_0000,
        pcm_fits(data@.len()),
        start < 0x20_0000_0000_0000,
    ensures
        final(vec).wf(),
        final(vec).pending() == Seq::<u8>::empty(),
        final(vec).stream() == old(vec).stream() + audio_run(
            start as nat,
            data@,
            (samples * width) as nat,
            samples as nat,
            rate as nat,
            0,
        ),
        final(vec).dropped() == old(vec).dropped(),
{
    assert(samples * width <= 4 * 0x1000_0000 && samples * width >= 1) by (nonlinear_arith)
        requires samples <= 0x1000_0000, 1 <= width <= 4, samples >= 1;
    let size = samples * width;
    let len = data.len() as u64;
    let n = (len + size as u64 - 1) / size as u64;
    let ghost target = old(vec).stream() + audio_run(
        start as nat,
        data@,
        size as nat,
        samples as nat,
        rate as nat,
        0,
    );
    let mut j: u64 = 0;
    while j < n
        invariant
            vec.wf(),
            vec.pending() == Seq::<u8>::empty(),
            vec.dropped() == old(vec).dropped(),
            vec.stream() + audio_run(start as nat, data@, size as nat, samples as nat, rate as nat, j as nat)
                == target,
            n == chunk_count(data@.len(), size as nat),
            len == data@.len(),
            size == samples * width,
            1 <= size <= 4 * 0x1000_0000,
            1 <= width <= 4,
            1 <= samples,
            samples == chunk_samples(rate as nat),
            pcm_fits(data@.len()),
            start < 0x20_0000_0000_0000,
            j <= n,
        decreases n - j,
    {
        proof {
            lemma_chunk_start(len as nat, size as nat, j as nat);
            lemma_mul_is_distributive_add_other_way(size as int, j as int, 1);
            assert(j * samples <= j * size) by (nonlinear_arith)
                requires size == samples * width, width >= 1, j >= 0, samples >= 1;
        }
        let pos = (j * size as u64) as usize;
        let end = if data.len() - pos < size { data.len() } else { pos + size };
        let chunk = slice_subrange(data, pos, end);
        assert(chunk@ == chunk_of(data@, j as nat, size as nat));
        let first: u64 = j * samples as u64;
        let offset = (2000 * first + rate as u64) / (2 * rate as u64);
        let blk = match build_block(TRACK_AUDIO, 0, chunk) {
            Ok(b) => b,
            Err(_) => Vec::new(),
        };
        proof {
            lemma_block_len(TRACK_AUDIO, 0, chunk@);
            lemma_element_len(BLOCK, blk@);
        }
        let group = element_bytes(BLOCK, blk.as_slice());
        let ghost before = vec.stream();
        write_cluster(vec, start + offset, group.as_slice());
        assert(before + audio_run(start as nat, data@, size as nat, samples as nat, rate as nat, j as nat)
            =~= vec.stream() + audio_run(start as nat, data@, size as nat, samples as nat, rate as nat, (j + 1) as nat));
        j = j + 1;
    }
}

} // verus!
