//! The EBML framing that the muxer relies on: element identifiers, variable-size integers, and
//! the element writer of `webm_iterable` through which every element is framed.
use vstd::prelude::*;
use vstd::arithmetic::power2::{pow2, lemma2_to64, lemma2_to64_rest, lemma_pow2_unfold, lemma_pow2_adds};
use vstd::arithmetic::div_mod::lemma_div_denominator;
use webm_iterable::WebmWriter as TagWriter;
use webm_iterable::WriteOptions;
use webm_iterable::matroska_spec::{Master, MatroskaSpec as Tag};

verus! {

// Matroska element identifiers.
pub const EBML: u64 = 0x1A45DFA3;
pub const EBML_MAX_ID_LENGTH: u64 = 0x42F2;
pub const EBML_MAX_SIZE_LENGTH: u64 = 0x42F3;
pub const SEGMENT: u64 = 0x18538067;
pub const INFO: u64 = 0x1549A966;
pub const TIMECODE_SCALE: u64 = 0x2AD7B1;
pub const MUXING_APP: u64 = 0x4D80;
pub const WRITING_APP: u64 = 0x5741;
pub const DURATION: u64 = 0x4489;
pub const TRACKS: u64 = 0x1654AE6B;
pub const TRACK_ENTRY: u64 = 0xAE;
pub const TRACK_NUMBER: u64 = 0xD7;
pub const TRACK_UID: u64 = 0x73C5;
pub const TRACK_TYPE: u64 = 0x83;
pub const FLAG_ENABLED: u64 = 0xB9;
pub const FLAG_DEFAULT: u64 = 0x88;
pub const FLAG_FORCED: u64 = 0x55AA;
pub const FLAG_LACING: u64 = 0x9C;
pub const CODEC_ID: u64 = 0x86;
pub const CODEC_DECODE_ALL: u64 = 0xAA;
pub const SEEK_PRE_ROLL: u64 = 0x56BB;
pub const DEFAULT_DURATION: u64 = 0x23E383;
pub const VIDEO: u64 = 0xE0;
pub const FLAG_INTERLACED: u64 = 0x9A;
pub const PIXEL_WIDTH: u64 = 0xB0;
pub const PIXEL_HEIGHT: u64 = 0xBA;
pub const COLOUR_SPACE: u64 = 0x2EB524;
pub const AUDIO: u64 = 0xE1;
pub const SAMPLING_FREQUENCY: u64 = 0xB5;
pub const CHANNELS: u64 = 0x9F;
pub const BIT_DEPTH: u64 = 0x6264;
pub const CLUSTER: u64 = 0x1F43B675;
pub const TIMECODE: u64 = 0xE7;
pub const BLOCK_GROUP: u64 = 0xA0;
pub const BLOCK: u64 = 0xA1;
pub const BLOCK_DURATION: u64 = 0x9B;
pub const CUES: u64 = 0x1C53BB6B;

/// Elements written beyond the baseline WebM set: the EBML header fields and the colour
/// metadata of the video track.
#[derive(Clone, Copy, Debug, PartialEq, Eq)]
pub enum MatroskaSpec {
    Color,
    MatrixCoefficients,
    BitsPerChannel,
    TransferCharacteristics,
    Primaries,
    EbmlVersion,
    EbmlReadVersion,
    EbmlDocType,
    EbmlDocTypeVersion,
    EbmlDocTypeReadVersion,
}

impl MatroskaSpec {
    pub open spec fn spec_id(self) -> u64 {
        match self {
            MatroskaSpec::Color => 0x55B0,
            MatroskaSpec::MatrixCoefficients => 0x55B1,
            MatroskaSpec::BitsPerChannel => 0x55B2,
            MatroskaSpec::TransferCharacteristics => 0x55BA,
            MatroskaSpec::Primaries => 0x55BB,
            MatroskaSpec::EbmlVersion => 0x4286,
            MatroskaSpec::EbmlReadVersion => 0x42F7,
            MatroskaSpec::EbmlDocType => 0x4282,
            MatroskaSpec::EbmlDocTypeVersion => 0x4287,
            MatroskaSpec::EbmlDocTypeReadVersion => 0x4285,
        }
    }

    /// The element identifier.
    #[verifier::when_used_as_spec(spec_id)]
    pub fn id(self) -> (r: u64)
        ensures
            r == self.spec_id(),
    {
        match self {
            MatroskaSpec::Color => 0x55B0,
            MatroskaSpec::MatrixCoefficients => 0x55B1,
            MatroskaSpec::BitsPerChannel => 0x55B2,
            MatroskaSpec::TransferCharacteristics => 0x55BA,
            MatroskaSpec::Primaries => 0x55BB,
            MatroskaSpec::EbmlVersion => 0x4286,
            MatroskaSpec::EbmlReadVersion => 0x42F7,
            MatroskaSpec::EbmlDocType => 0x4282,
            MatroskaSpec::EbmlDocTypeVersion => 0x4287,
            MatroskaSpec::EbmlDocTypeReadVersion => 0x4285,
        }
    }
}

/// Big-endian bytes of `v` without leading zero bytes (empty for zero).
pub open spec fn be_min(v: nat) -> Seq<u8>
    decreases v,
{
    if v == 0 {
        Seq::empty()
    } else {
        be_min(v / 256).push((v % 256) as u8)
    }
}

/// The last `n` big-endian bytes of `v`.
pub open spec fn be_fixed(v: nat, n: nat) -> Seq<u8>
    decreases n,
{
    if n == 0 {
        Seq::empty()
    } else {
        be_fixed(v / 256, (n - 1) as nat).push((v % 256) as u8)
    }
}

/// Length of the shortest EBML variable-size integer for `v`, the all-ones value of each length
/// being reserved.
pub open spec fn vint_len(v: nat) -> nat {
    if v < 0x7f {
        1
    } else if v < 0x3fff {
        2
    } else if v < 0x1f_ffff {
        3
    } else if v < 0xfff_ffff {
        4
    } else if v < 0x7_ffff_ffff {
        5
    } else if v < 0x3ff_ffff_ffff {
        6
    } else if v < 0x1_ffff_ffff_ffff {
        7
    } else {
        8
    }
}

/// The EBML variable-size integer for `v`: its length marker is the bit just above the value.
pub open spec fn vint(v: nat) -> Seq<u8> {
    be_fixed(v + pow2_7(vint_len(v)), vint_len(v))
}

/// `2^(7 * n)`.
pub open spec fn pow2_7(n: nat) -> nat
    decreases n,
{
    if n == 0 {
        1
    } else {
        128 * pow2_7((n - 1) as nat)
    }
}

/// One complete EBML element: identifier, size, payload.
pub open spec fn element(id: u64, payload: Seq<u8>) -> Seq<u8> {
    be_min(id as nat) + vint(payload.len()) + payload
}

/// Payload sizes the writer can frame: a size takes at most eight bytes.
pub open spec fn frameable(len: nat) -> bool {
    len < 0xff_ffff_ffff_ffff
}

/// An element writer of `webm_iterable` over a byte vector. Verus refuses the writer's
/// declaration (its parameter is bound by `std::io::Write`), so it is held here and known to
/// proofs only through the names below.
#[verifier::external_body]
pub struct ElementSink {
    writer: TagWriter<Vec<u8>>,
}

/// The bytes a writer has handed to its destination vector.
pub uninterp spec fn sink_bytes(w: ElementSink) -> Seq<u8>;

/// The bytes a writer holds back until its next flush.
pub uninterp spec fn sink_pending(w: ElementSink) -> Seq<u8>;

/// The writer has no open element of known size, so each element it frames is flushed at once.
pub uninterp spec fn sink_streams(w: ElementSink) -> bool;

/// Relies on `TagWriter::new`: the destination is kept as given, nothing is pending and no
/// element is open.
#[verifier::external_body]
pub fn new_sink(dest: Vec<u8>) -> (w: ElementSink)
    ensures
        sink_bytes(w) == dest@,
        sink_pending(w) == Seq::<u8>::empty(),
        sink_streams(w),
{
    ElementSink { writer: TagWriter::new(dest) }
}

/// Relies on `TagWriter::write_raw`: it appends identifier, size and payload to the pending
/// bytes and, with no open element of known size, writes all pending bytes to the destination.
#[verifier::external_body]
pub fn write_raw(w: &mut ElementSink, id: u64, data: &[u8])
    requires
        sink_streams(*old(w)),
        frameable(data@.len()),
    ensures
        sink_streams(*final(w)),
        sink_bytes(*final(w)) == sink_bytes(*old(w)) + sink_pending(*old(w)) + element(id, data@),
        sink_pending(*final(w)) == Seq::<u8>::empty(),
{
    let _ = w.writer.write_raw(id, data);
}

/// Relies on `TagWriter::get_ref`: the destination vector itself.
#[verifier::external_body]
pub fn sink_contents(w: &ElementSink) -> (r: &Vec<u8>)
    ensures
        r@ == sink_bytes(*w),
{
    w.writer.get_ref()
}

/// The header that opens a Segment of unknown size: its identifier and the reserved all-ones
/// size of eight bytes.
pub open spec fn open_segment_bytes() -> Seq<u8> {
    be_min(SEGMENT as nat) + seq![0x01u8, 0xff, 0xff, 0xff, 0xff, 0xff, 0xff, 0xff]
}

/// Relies on `TagWriter::write_advanced` with `WriteOptions::is_unknown_sized_element` for the
/// Segment: it appends the Segment identifier and the unknown size to the pending bytes, opens an
/// element of unknown size, and does not flush.
#[verifier::external_body]
pub fn open_segment(w: &mut ElementSink)
    requires
        sink_streams(*old(w)),
    ensures
        sink_streams(*final(w)),
        sink_bytes(*final(w)) == sink_bytes(*old(w)),
        sink_pending(*final(w)) == sink_pending(*old(w)) + open_segment_bytes(),
{
    let _ = w.writer.write_advanced(
        &Tag::Segment(Master::Start),
        WriteOptions::is_unknown_sized_element(),
    );
}

/// Relies on `TagWriter::get_mut`: the first `n` bytes of the destination are dropped, which
/// leaves the pending bytes and the open elements alone.
#[verifier::external_body]
pub fn sink_drop_front(w: &mut ElementSink, n: usize)
    requires
        n <= sink_bytes(*old(w)).len(),
    ensures
        sink_streams(*final(w)) == sink_streams(*old(w)),
        sink_bytes(*final(w)) == sink_bytes(*old(w)).skip(n as int),
        sink_pending(*final(w)) == sink_pending(*old(w)),
{
    w.writer.get_mut().drain(..n);
}

/// One framed element as bytes.
pub fn element_bytes(id: u64, data: &[u8]) -> (r: Vec<u8>)
    requires
        frameable(data@.len()),
    ensures
        r@ == element(id, data@),
{
    let mut w = new_sink(Vec::new());
    write_raw(&mut w, id, data);
    let r = sink_contents(&w).clone();
    assert(r@ =~= element(id, data@));
    r
}

/// The payload of an unsigned integer element: the value in the fewest of 1, 2, 4 or 8
/// big-endian bytes, as the typed writer of `ebml_iterable` lays it out.
pub open spec fn uint_payload(v: nat) -> Seq<u8> {
    if v < 0x100 {
        be_fixed(v, 1)
    } else if v < 0x1_0000 {
        be_fixed(v, 2)
    } else if v < 0x1_0000_0000 {
        be_fixed(v, 4)
    } else {
        be_fixed(v, 8)
    }
}

/// Largest power of two not above `n` (for positive `n`), as an exponent.
pub open spec fn log2(n: nat) -> nat
    decreases n,
{
    if n <= 1 {
        0
    } else {
        1 + log2(n / 2)
    }
}

/// The bits of the IEEE 754 double that equals `n`, for `n` below 2^53.
pub open spec fn f64_bits(n: nat) -> nat {
    if n == 0 {
        0
    } else {
        ((1023 + log2(n)) * pow2(52) + (n - pow2(log2(n))) * pow2((52 - log2(n)) as nat)) as nat
    }
}

/// The payload of a float element holding the integer `n`: eight big-endian bytes.
pub open spec fn float_payload(n: nat) -> Seq<u8> {
    be_fixed(f64_bits(n), 8)
}

/// The last `n` big-endian bytes of `v`.
pub fn be_bytes(v: u64, n: usize) -> (r: Vec<u8>)
    ensures
        r@ == be_fixed(v as nat, n as nat),
    decreases n,
{
    if n == 0 {
        Vec::new()
    } else {
        let mut r = be_bytes(v / 256, n - 1);
        r.push((v % 256) as u8);
        r
    }
}

/// Payload of an unsigned integer element.
pub fn uint_bytes(v: u64) -> (r: Vec<u8>)
    ensures
        r@ == uint_payload(v as nat),
{
    if v < 0x100 {
        be_bytes(v, 1)
    } else if v < 0x1_0000 {
        be_bytes(v, 2)
    } else if v < 0x1_0000_0000 {
        be_bytes(v, 4)
    } else {
        be_bytes(v, 8)
    }
}

proof fn lemma_log2_step(n: nat, p: nat)
    requires
        p >= 1,
        p <= n / 2,
    ensures
        log2(n / p) == 1 + log2(n / (2 * p)),
{
    assert(n / p >= 2) by (nonlinear_arith)
        requires p >= 1, p <= n / 2;
    lemma_div_denominator(n as int, p as int, 2);
}

/// The bits of the double that equals `n`.
pub fn double_bits(n: u64) -> (r: u64)
    requires
        n < 0x20_0000_0000_0000,
    ensures
        r as nat == f64_bits(n as nat),
{
    if n == 0 {
        return 0;
    }
    let mut p: u64 = 1;
    let mut q: u64 = 0x10_0000_0000_0000;
    let mut e: u64 = 0;
    proof {
        lemma2_to64();
        lemma2_to64_rest();
    }
    while p <= n / 2
        invariant
            1 <= p <= n,
            p == pow2(e as nat),
            e <= 52,
            p * q == pow2(52),
            q == pow2((52 - e) as nat),
            n < 0x20_0000_0000_0000,
            log2(n as nat) == e + log2((n / p) as nat),
        decreases n - p,
    {
        proof {
            lemma_log2_step(n as nat, p as nat);
            lemma_pow2_unfold((e + 1) as nat);
            assert(e < 52) by {
                lemma2_to64_rest();
                if e == 52 {
                    assert(p == 0x10_0000_0000_0000);
                }
            }
            lemma_pow2_unfold((52 - e) as nat);
            assert(q % 2 == 0);
        }
        p = p * 2;
        q = q / 2;
        e = e + 1;
        proof {
            assert(p * q == pow2(52)) by (nonlinear_arith)
                requires p == 2 * (p / 2), (p / 2) * (2 * q) == pow2(52) as int;
        }
    }
    proof {
        assert(n / p < 2) by (nonlinear_arith)
            requires p > n / 2, p >= 1;
        assert(log2((n / p) as nat) == 0);
        assert((n - p) * q < p * q) by (nonlinear_arith)
            requires n - p < p, q > 0;
    }
    (1023 + e) * 0x10_0000_0000_0000 + (n - p) * q
}

/// An unsigned integer element.
pub open spec fn uint_element(id: u64, v: nat) -> Seq<u8> {
    element(id, uint_payload(v))
}

pub proof fn lemma_be_fixed_len(v: nat, n: nat)
    ensures
        be_fixed(v, n).len() == n,
    decreases n,
{
    if n > 0 {
        lemma_be_fixed_len(v / 256, (n - 1) as nat);
    }
}

pub proof fn lemma_be_min_len(v: nat, k: nat)
    requires
        v < pow2(8 * k),
    ensures
        be_min(v).len() <= k,
    decreases v,
{
    if v > 0 {
        if k == 0 {
            assert(pow2(0) == 1) by { lemma2_to64(); }
        } else {
            assert(pow2(8 * k) == 256 * pow2(8 * (k - 1) as nat)) by {
                lemma_pow2_adds(8, 8 * (k - 1) as nat);
                lemma2_to64();
            }
            lemma_be_min_len(v / 256, (k - 1) as nat);
        }
    }
}

/// An element is its payload and at most sixteen bytes of framing.
pub proof fn lemma_element_len(id: u64, payload: Seq<u8>)
    ensures
        payload.len() < element(id, payload).len() <= payload.len() + 16,
{
    assert(pow2(64) == 0x1_0000_0000_0000_0000) by { lemma2_to64_rest(); }
    lemma_be_min_len(id as nat, 8);
    lemma_be_fixed_len(payload.len() + pow2_7(vint_len(payload.len())), vint_len(payload.len()));
}

pub proof fn lemma_uint_payload_len(v: nat)
    ensures
        uint_payload(v).len() <= 8,
{
    lemma_be_fixed_len(v, 1);
    lemma_be_fixed_len(v, 2);
    lemma_be_fixed_len(v, 4);
    lemma_be_fixed_len(v, 8);
}

/// One unsigned integer element as bytes.
pub fn uint_element_bytes(id: u64, v: u64) -> (r: Vec<u8>)
    ensures
        r@ == uint_element(id, v as nat),
        r@.len() <= 24,
{
    let p = uint_bytes(v);
    proof {
        lemma_uint_payload_len(v as nat);
        lemma_element_len(id, p@);
    }
    element_bytes(id, p.as_slice())
}

/// Appends `more` to `out`.
pub fn push_all(out: &mut Vec<u8>, more: Vec<u8>)
    ensures
        final(out)@ == old(out)@ + more@,
{
    let mut more = more;
    out.append(&mut more);
}

} // verus!
