//! The file's header: the EBML header, the Info element and the declaration of the tracks.
use vstd::prelude::*;
use vstd::string::StringSliceAdditionalSpecFns;
use vstd::utf8::encode_utf8;
use crate::ebml::{
    be_bytes, double_bits, element, element_bytes, float_payload, lemma_be_fixed_len,
    lemma_element_len, open_segment_bytes, push_all, uint_element, uint_element_bytes,
    MatroskaSpec, AUDIO, BIT_DEPTH, CHANNELS, CODEC_DECODE_ALL, CODEC_ID, COLOUR_SPACE,
    DEFAULT_DURATION, DURATION, EBML, EBML_MAX_ID_LENGTH, EBML_MAX_SIZE_LENGTH, FLAG_DEFAULT,
    FLAG_ENABLED, FLAG_FORCED, FLAG_INTERLACED, FLAG_LACING, INFO, MUXING_APP, PIXEL_HEIGHT,
    PIXEL_WIDTH, SAMPLING_FREQUENCY, SEEK_PRE_ROLL, TIMECODE_SCALE, TRACKS, TRACK_ENTRY,
    TRACK_NUMBER, TRACK_TYPE, TRACK_UID, VIDEO, WRITING_APP,
};
use crate::cluster::{TIMESCALE, TRACK_AUDIO, TRACK_VIDEO};
use crate::media::u16_ne_bytes;
use crate::ebml::be_fixed;
use crate::{total_millis, Slide};

verus! {

/// How the video track is declared.
pub struct VideoTrack {
    pub width: u32,
    pub height: u32,
    pub uid: u64,
}

/// How the audio track is declared.
pub struct AudioTrack {
    /// Samples per second; also converts sample counts into time.
    pub sampling_frequency: u32,
    pub channels: u16,
    pub bits_per_sample: u16,
    pub uid: u64,
    /// The bytes of the number 1 in the host's byte order, which integer samples keep.
    pub host_order: [u8; 2],
    /// The Matroska codec identifier.
    pub codec: String,
}

/// Codec identifiers of PCM audio.
pub open spec fn pcm_big() -> Seq<char> {
    "A_PCM/INT/BIG"@
}

pub open spec fn pcm_little() -> Seq<char> {
    "A_PCM/INT/LIT"@
}

pub open spec fn pcm_float() -> Seq<char> {
    "A_PCM/FLOAT/IEEE"@
}

/// Whether the bytes of the number 1 in some order are big-endian.
pub open spec fn is_big_endian(ne_one: [u8; 2]) -> bool {
    ne_one@ == seq![0u8, 1u8]
}

/// The identifier of integer PCM whose samples lie in the order of `ne_one`, the bytes of 1.
pub open spec fn int_codec(ne_one: [u8; 2]) -> Seq<char> {
    if is_big_endian(ne_one) {
        pcm_big()
    } else {
        pcm_little()
    }
}

/// The identifier of integer PCM in the byte order that `ne_one`, the bytes of 1, shows.
pub fn pcm_codec_for(ne_one: [u8; 2]) -> (r: String)
    ensures
        r@ == int_codec(ne_one),
{
    if ne_one[0] == 0 && ne_one[1] == 1 {
        assert(ne_one@ =~= seq![0u8, 1u8]);
        "A_PCM/INT/BIG".to_owned()
    } else {
        "A_PCM/INT/LIT".to_owned()
    }
}

/// The bytes of 1 in the host's order.
pub fn host_order() -> (r: [u8; 2])
    ensures
        r@ == seq![0u8, 1u8] || r@ == seq![1u8, 0u8],
{
    let r = u16_ne_bytes(1);
    proof {
        reveal_with_fuel(be_fixed, 3);
        assert(be_fixed(1, 2) =~= seq![0u8, 1u8]);
        assert(be_fixed(1, 2).reverse() =~= seq![1u8, 0u8]);
    }
    r
}

impl AudioTrack {
    /// The codec is PCM: float for 32-bit samples, else integers in the track's byte order.
    pub open spec fn wf(&self) -> bool {
        &&& (self.host_order@ == seq![0u8, 1u8] || self.host_order@ == seq![1u8, 0u8])
        &&& if self.bits_per_sample == 32 {
            self.codec@ == pcm_float()
        } else {
            self.codec@ == int_codec(self.host_order)
        }
    }

    /// Whether the track's integer samples are big-endian.
    pub fn big_endian(&self) -> (r: bool)
        ensures
            r == is_big_endian(self.host_order),
    {
        let r = self.host_order[0] == 0 && self.host_order[1] == 1;
        assert(r ==> self.host_order@ =~= seq![0u8, 1u8]);
        r
    }

    /// The identifier of integer PCM in the track's byte order, the host's, in which samples
    /// are passed on.
    pub fn pcm_format(&self) -> (r: String)
        ensures
            r@ == int_codec(self.host_order),
    {
        pcm_codec_for(self.host_order)
    }

    /// The identifier of float PCM, which is always little-endian.
    pub fn float_format(&self) -> (r: String)
        ensures
            r@ == pcm_float(),
    {
        "A_PCM/FLOAT/IEEE".to_owned()
    }
}

/// The application named in the file.
pub open spec fn app_name() -> Seq<u8> {
    "VFP-Core-1.0.0".spec_bytes()
}

/// The EBML header of a WebM file.
pub open spec fn ebml_header() -> Seq<u8> {
    element(EBML, ebml_header_payload())
}

/// The fields of the EBML header: versions, limits and document type.
pub open spec fn ebml_header_payload() -> Seq<u8> {
        uint_element(MatroskaSpec::EbmlVersion.spec_id(), 1) + uint_element(
            MatroskaSpec::EbmlReadVersion.spec_id(),
            1,
        ) + uint_element(EBML_MAX_ID_LENGTH, 4) + uint_element(EBML_MAX_SIZE_LENGTH, 8) + element(
            MatroskaSpec::EbmlDocType.spec_id(),
            "webm".spec_bytes(),
        ) + uint_element(MatroskaSpec::EbmlDocTypeVersion.spec_id(), 4) + uint_element(
            MatroskaSpec::EbmlDocTypeReadVersion.spec_id(),
            2,
        )
}

/// The Info element of a file lasting `total` ticks.
pub open spec fn info_element(total: nat) -> Seq<u8> {
    element(INFO, info_payload(total))
}

/// Timecode scale, application, and duration in ticks.
pub open spec fn info_payload(total: nat) -> Seq<u8> {
        uint_element(TIMECODE_SCALE, TIMESCALE as nat) + element(MUXING_APP, app_name()) + element(
            WRITING_APP,
            app_name(),
        ) + element(DURATION, float_payload(total))
}

/// A TrackEntry with the settings common to both tracks, then the track kind's own.
pub open spec fn track_entry(
    number: u64,
    uid: u64,
    kind: u64,
    codec: Seq<u8>,
    settings: Seq<u8>,
) -> Seq<u8> {
    element(
        TRACK_ENTRY,
        uint_element(TRACK_NUMBER, number as nat) + uint_element(TRACK_UID, uid as nat)
            + uint_element(TRACK_TYPE, kind as nat) + uint_element(FLAG_ENABLED, 1) + uint_element(
            FLAG_DEFAULT,
            1,
        ) + uint_element(FLAG_FORCED, 0) + uint_element(FLAG_LACING, 0) + element(CODEC_ID, codec)
            + uint_element(CODEC_DECODE_ALL, 0) + uint_element(SEEK_PRE_ROLL, 0) + uint_element(
            DEFAULT_DURATION,
            1_000_000_000,
        ) + settings,
    )
}

/// The Video element: raw RGBA frames, 8 bits per channel, sRGB.
pub open spec fn video_settings(v: VideoTrack) -> Seq<u8> {
    element(
        VIDEO,
        uint_element(FLAG_INTERLACED, 2) + uint_element(PIXEL_WIDTH, v.width as nat) + uint_element(
            PIXEL_HEIGHT,
            v.height as nat,
        ) + element(COLOUR_SPACE, "RGBA".spec_bytes()) + element(
            MatroskaSpec::Color.spec_id(),
            uint_element(MatroskaSpec::BitsPerChannel.spec_id(), 8) + uint_element(
                MatroskaSpec::TransferCharacteristics.spec_id(),
                13,
            ) + uint_element(MatroskaSpec::Primaries.spec_id(), 1),
        ),
    )
}

/// The Audio element.
pub open spec fn audio_settings(a: AudioTrack) -> Seq<u8> {
    element(
        AUDIO,
        element(SAMPLING_FREQUENCY, float_payload(a.sampling_frequency as nat)) + uint_element(
            CHANNELS,
            a.channels as nat,
        ) + uint_element(BIT_DEPTH, a.bits_per_sample as nat),
    )
}

pub open spec fn video_entry(v: VideoTrack) -> Seq<u8> {
    track_entry(TRACK_VIDEO, v.uid, 1, "V_UNCOMPRESSED".spec_bytes(), video_settings(v))
}

pub open spec fn audio_entry(a: AudioTrack) -> Seq<u8> {
    track_entry(TRACK_AUDIO, a.uid, 2, encode_utf8(a.codec@), audio_settings(a))
}

/// The declared tracks, in order: the video track, then the audio track if there is one.
pub open spec fn track_list(v: VideoTrack, a: Option<AudioTrack>) -> Seq<Seq<u8>> {
    match a {
        Some(a) => seq![video_entry(v), audio_entry(a)],
        None => seq![video_entry(v)],
    }
}

/// The Tracks element.
pub open spec fn tracks_element(v: VideoTrack, a: Option<AudioTrack>) -> Seq<u8> {
    element(TRACKS, tracks_payload(v, a))
}

pub open spec fn tracks_payload(v: VideoTrack, a: Option<AudioTrack>) -> Seq<u8> {
    match a {
        Some(a) => video_entry(v) + audio_entry(a),
        None => video_entry(v),
    }
}

/// Everything before the first cluster: the EBML header, the opening of the Segment, Info and
/// Tracks.
pub open spec fn file_header(v: VideoTrack, a: Option<AudioTrack>, total: nat) -> Seq<u8> {
    ebml_header() + open_segment_bytes() + info_element(total) + tracks_element(v, a)
}

pub(crate) fn ebml_header_bytes() -> (r: Vec<u8>)
    ensures
        r@ == ebml_header_payload(),
        r@.len() <= 200,
{
    let mut p = uint_element_bytes(MatroskaSpec::EbmlVersion.id(), 1);
    push_all(&mut p, uint_element_bytes(MatroskaSpec::EbmlReadVersion.id(), 1));
    push_all(&mut p, uint_element_bytes(EBML_MAX_ID_LENGTH, 4));
    push_all(&mut p, uint_element_bytes(EBML_MAX_SIZE_LENGTH, 8));
    let doc = "webm".as_bytes();
    proof {
        reveal_strlit("webm");
        vstd::string::is_ascii_spec_bytes("webm");
        lemma_element_len(MatroskaSpec::EbmlDocType.spec_id(), doc@);
    }
    push_all(&mut p, element_bytes(MatroskaSpec::EbmlDocType.id(), doc));
    push_all(&mut p, uint_element_bytes(MatroskaSpec::EbmlDocTypeVersion.id(), 4));
    push_all(&mut p, uint_element_bytes(MatroskaSpec::EbmlDocTypeReadVersion.id(), 2));
    p
}

fn float_element_bytes(id: u64, n: u64) -> (r: Vec<u8>)
    requires
        n < 0x20_0000_0000_0000,
    ensures
        r@ == element(id, float_payload(n as nat)),
        r@.len() <= 24,
{
    let bits = double_bits(n);
    let payload = be_bytes(bits, 8);
    proof {
        lemma_be_fixed_len(bits as nat, 8);
        lemma_element_len(id, payload@);
    }
    element_bytes(id, payload.as_slice())
}

pub(crate) fn info_bytes(total: u64) -> (r: Vec<u8>)
    requires
        total < 0x20_0000_0000_0000,
    ensures
        r@ == info_payload(total as nat),
        r@.len() <= 200,
{
    let mut p = uint_element_bytes(TIMECODE_SCALE, TIMESCALE);
    let app = "VFP-Core-1.0.0".as_bytes();
    proof {
        reveal_strlit("VFP-Core-1.0.0");
        vstd::string::is_ascii_spec_bytes("VFP-Core-1.0.0");
        lemma_element_len(MUXING_APP, app@);
        lemma_element_len(WRITING_APP, app@);
    }
    push_all(&mut p, element_bytes(MUXING_APP, app));
    push_all(&mut p, element_bytes(WRITING_APP, app));
    push_all(&mut p, float_element_bytes(DURATION, total));
    p
}

fn track_entry_bytes(number: u64, uid: u64, kind: u64, codec: &[u8], settings: Vec<u8>) -> (r: Vec<
    u8,
>)
    requires
        codec@.len() <= 64,
        settings@.len() <= 300,
    ensures
        r@ == track_entry(number, uid, kind, codec@, settings@),
        r@.len() <= 700,
{
    let mut p = uint_element_bytes(TRACK_NUMBER, number);
    push_all(&mut p, uint_element_bytes(TRACK_UID, uid));
    push_all(&mut p, uint_element_bytes(TRACK_TYPE, kind));
    push_all(&mut p, uint_element_bytes(FLAG_ENABLED, 1));
    push_all(&mut p, uint_element_bytes(FLAG_DEFAULT, 1));
    push_all(&mut p, uint_element_bytes(FLAG_FORCED, 0));
    push_all(&mut p, uint_element_bytes(FLAG_LACING, 0));
    proof {
        lemma_element_len(CODEC_ID, codec@);
    }
    push_all(&mut p, element_bytes(CODEC_ID, codec));
    push_all(&mut p, uint_element_bytes(CODEC_DECODE_ALL, 0));
    push_all(&mut p, uint_element_bytes(SEEK_PRE_ROLL, 0));
    push_all(&mut p, uint_element_bytes(DEFAULT_DURATION, 1_000_000_000));
    push_all(&mut p, settings);
    proof {
        lemma_element_len(TRACK_ENTRY, p@);
    }
    element_bytes(TRACK_ENTRY, p.as_slice())
}

impl VideoTrack {
    /// The Video element of this track.
    fn encode(&self) -> (r: Vec<u8>)
        ensures
            r@ == video_settings(*self),
            r@.len() <= 200,
    {
        let mut p = uint_element_bytes(FLAG_INTERLACED, 2);
        push_all(&mut p, uint_element_bytes(PIXEL_WIDTH, self.width as u64));
        push_all(&mut p, uint_element_bytes(PIXEL_HEIGHT, self.height as u64));
        let space = "RGBA".as_bytes();
        proof {
            reveal_strlit("RGBA");
            vstd::string::is_ascii_spec_bytes("RGBA");
            lemma_element_len(COLOUR_SPACE, space@);
        }
        push_all(&mut p, element_bytes(COLOUR_SPACE, space));
        let mut c = uint_element_bytes(MatroskaSpec::BitsPerChannel.id(), 8);
        push_all(&mut c, uint_element_bytes(MatroskaSpec::TransferCharacteristics.id(), 13));
        push_all(&mut c, uint_element_bytes(MatroskaSpec::Primaries.id(), 1));
        proof {
            lemma_element_len(MatroskaSpec::Color.spec_id(), c@);
        }
        push_all(&mut p, element_bytes(MatroskaSpec::Color.id(), c.as_slice()));
        proof {
            lemma_element_len(VIDEO, p@);
        }
        element_bytes(VIDEO, p.as_slice())
    }

    /// The codec identifier of raw frames.
    fn codec_bytes() -> (r: &'static [u8])
        ensures
            r@ == "V_UNCOMPRESSED".spec_bytes(),
            r@.len() <= 64,
    {
        proof {
            reveal_strlit("V_UNCOMPRESSED");
            vstd::string::is_ascii_spec_bytes("V_UNCOMPRESSED");
        }
        "V_UNCOMPRESSED".as_bytes()
    }

    fn entry(&self) -> (r: Vec<u8>)
        ensures
            r@ == video_entry(*self),
            r@.len() <= 700,
    {
        let codec = Self::codec_bytes();
        let settings = self.encode();
        track_entry_bytes(TRACK_VIDEO, self.uid, 1, codec, settings)
    }
}

proof fn lemma_codec_len(a: AudioTrack)
    requires
        a.wf(),
    ensures
        encode_utf8(a.codec@).len() <= 64,
{
    if a.codec@ == pcm_big() {
        reveal_strlit("A_PCM/INT/BIG");
        vstd::string::is_ascii_spec_bytes("A_PCM/INT/BIG");
        assert(encode_utf8(a.codec@) == "A_PCM/INT/BIG".spec_bytes());
    } else if a.codec@ == pcm_little() {
        reveal_strlit("A_PCM/INT/LIT");
        vstd::string::is_ascii_spec_bytes("A_PCM/INT/LIT");
        assert(encode_utf8(a.codec@) == "A_PCM/INT/LIT".spec_bytes());
    } else {
        reveal_strlit("A_PCM/FLOAT/IEEE");
        vstd::string::is_ascii_spec_bytes("A_PCM/FLOAT/IEEE");
        assert(encode_utf8(a.codec@) == "A_PCM/FLOAT/IEEE".spec_bytes());
    }
}

impl AudioTrack {
    /// The codec identifier as bytes.
    fn codec_bytes(&self) -> (r: &[u8])
        requires
            self.wf(),
        ensures
            r@ == encode_utf8(self.codec@),
            r@.len() <= 64,
    {
        let text = self.codec.as_str();
        proof {
            lemma_codec_len(*self);
        }
        text.as_bytes()
    }

    /// The Audio element of this track.
    fn encode(&self) -> (r: Vec<u8>)
        ensures
            r@ == audio_settings(*self),
            r@.len() <= 200,
    {
        let mut p = float_element_bytes(SAMPLING_FREQUENCY, self.sampling_frequency as u64);
        push_all(&mut p, uint_element_bytes(CHANNELS, self.channels as u64));
        push_all(&mut p, uint_element_bytes(BIT_DEPTH, self.bits_per_sample as u64));
        proof {
            lemma_element_len(AUDIO, p@);
        }
        element_bytes(AUDIO, p.as_slice())
    }

    fn entry(&self) -> (r: Vec<u8>)
        requires
            self.wf(),
        ensures
            r@ == audio_entry(*self),
            r@.len() <= 700,
    {
        let codec = self.codec_bytes();
        let settings = self.encode();
        track_entry_bytes(TRACK_AUDIO, self.uid, 2, codec, settings)
    }
}

pub(crate) fn tracks_bytes(v: &VideoTrack, a: &Option<AudioTrack>) -> (r: Vec<u8>)
    requires
        a matches Some(t) ==> t.wf(),
    ensures
        r@ == tracks_payload(*v, *a),
        r@.len() <= 1400,
{
    let mut p = v.entry();
    match a {
        Some(t) => push_all(&mut p, t.entry()),
        None => {},
    }
    p
}

/// The Duration written into Info is the sum of the slides' durations, however the slides split
/// it: two slide lists of equal total get identical headers.
pub proof fn lemma_duration_from_total(
    v: VideoTrack,
    a: Option<AudioTrack>,
    s1: Seq<Slide>,
    s2: Seq<Slide>,
)
    requires
        total_millis(s1) == total_millis(s2),
    ensures
        file_header(v, a, total_millis(s1)) == file_header(v, a, total_millis(s2)),
        file_header(v, a, total_millis(s1)) == ebml_header() + open_segment_bytes() + element(
            INFO,
            uint_element(TIMECODE_SCALE, TIMESCALE as nat) + element(MUXING_APP, app_name())
                + element(WRITING_APP, app_name()) + element(
                DURATION,
                float_payload(total_millis(s1)),
            ),
        ) + tracks_element(v, a),
{
}

/// The Tracks element lists two tracks with an audio track and one without: first the video
/// track, number 1 of type 1, then the audio track, number 2 of type 2.
pub proof fn lemma_track_count(v: VideoTrack, a: Option<AudioTrack>)
    ensures
        track_list(v, a).len() == if a is Some {
            2nat
        } else {
            1nat
        },
        tracks_element(v, a) == element(TRACKS, track_list(v, a).flatten()),
        track_list(v, a)[0] == track_entry(
            TRACK_VIDEO,
            v.uid,
            1,
            "V_UNCOMPRESSED".spec_bytes(),
            video_settings(v),
        ),
        a matches Some(t) ==> track_list(v, a)[1] == track_entry(
            TRACK_AUDIO,
            t.uid,
            2,
            encode_utf8(t.codec@),
            audio_settings(t),
        ),
{
    reveal_with_fuel(Seq::flatten, 3);
    match a {
        Some(t) => {
            let l = track_list(v, a);
            assert(l.drop_first().drop_first() =~= Seq::<Seq<u8>>::empty());
            assert(l.drop_first() =~= seq![audio_entry(t)]);
            assert(l.flatten() =~= video_entry(v) + audio_entry(t));
        },
        None => {
            let l = track_list(v, a);
            assert(l.drop_first() =~= Seq::<Seq<u8>>::empty());
            assert(l.flatten() =~= video_entry(v));
        },
    }
}

} // verus!
