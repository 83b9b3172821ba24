use mkv_slide_show::ebml::{be_bytes, double_bits, element_bytes, uint_bytes, uint_element_bytes, MatroskaSpec};
use mkv_slide_show::cluster::{build_block, TRACK_AUDIO};
use mkv_slide_show::encoder::ErrorKind;
use mkv_slide_show::tracks::{host_order, pcm_codec_for, AudioTrack};
use mkv_slide_show::media::{check_riff, decode_image, float_le_bytes, pcm_data, sample_bytes, Samples};
use mkv_slide_show::paged_vec::PagedVec;
use mkv_slide_show::runtime::{HwAccelFlavor, Limits, SyncSink};

#[test]
fn consuming_nothing_changes_nothing() {
    let mut vec = PagedVec::new(64);
    vec.append(0x4286, &[1]);
    let before = vec.ready().to_vec();
    vec.consume(0);
    assert_eq!(vec.ready(), &before[..]);
}

#[test]
fn consuming_drops_a_prefix() {
    let mut vec = PagedVec::new(0);
    vec.append(0x4286, &[1]);
    vec.append(0x4282, b"webm");
    let before = vec.ready().to_vec();
    assert_eq!(before.len(), 4 + 7);
    vec.consume(3);
    assert_eq!(vec.ready().len(), before.len() - 3);
    assert_eq!(vec.ready(), &before[3..]);
}

#[test]
fn an_unknown_size_segment_is_held_until_the_next_element() {
    let mut vec = PagedVec::new(PagedVec::default_memory());
    assert_eq!(PagedVec::default_memory(), 1_000_000);
    vec.open_segment();
    assert!(vec.ready().is_empty());
    vec.append(0xEC, &[]);
    assert_eq!(
        vec.ready(),
        &[0x18, 0x53, 0x80, 0x67, 0x01, 0xff, 0xff, 0xff, 0xff, 0xff, 0xff, 0xff, 0xEC, 0x80][..]
    );
}

#[test]
fn elements_are_framed_with_their_size() {
    assert_eq!(element_bytes(0x4286, &[1]), vec![0x42, 0x86, 0x81, 0x01]);
    assert_eq!(element_bytes(0x1C53BB6B, &[]), vec![0x1C, 0x53, 0xBB, 0x6B, 0x80]);
    let long = vec![7u8; 200];
    let framed = element_bytes(0xA1, &long);
    assert_eq!(&framed[..3], &[0xA1, 0x40, 200][..]);
    assert_eq!(framed.len(), 203);
}

#[test]
fn unsigned_payloads_take_one_two_four_or_eight_bytes() {
    assert_eq!(uint_bytes(0), vec![0]);
    assert_eq!(uint_bytes(255), vec![255]);
    assert_eq!(uint_bytes(256), vec![1, 0]);
    assert_eq!(uint_bytes(1_000_000), vec![0, 0x0F, 0x42, 0x40]);
    assert_eq!(uint_bytes(1 << 40), vec![0, 0, 1, 0, 0, 0, 0, 0]);
    assert_eq!(uint_element_bytes(0x2AD7B1, 1_000_000), vec![0x2A, 0xD7, 0xB1, 0x84, 0, 0x0F, 0x42, 0x40]);
    assert_eq!(be_bytes(0x0102_0304, 3), vec![2, 3, 4]);
}

#[test]
fn doubles_of_integers() {
    assert_eq!(double_bits(0), 0);
    assert_eq!(double_bits(1), 1.0f64.to_bits());
    assert_eq!(double_bits(3000), 3000.0f64.to_bits());
    assert_eq!(double_bits(11025), 11025.0f64.to_bits());
    assert_eq!(double_bits((1 << 53) - 1), (((1u64 << 53) - 1) as f64).to_bits());
}

#[test]
fn blocks_carry_track_timecode_and_data() {
    match build_block(1, 0, &[9, 8]) {
        Ok(b) => assert_eq!(b, vec![0x81, 0, 0, 0, 9, 8]),
        Err(e) => panic!("{:?}", e),
    }
    match build_block(TRACK_AUDIO, -2, &[]) {
        Ok(b) => assert_eq!(b, vec![0x82, 0xff, 0xfe, 0]),
        Err(e) => panic!("{:?}", e),
    }
    assert!(matches!(build_block(200, 0, &[]), Err(e) if matches!(e.inner, ErrorKind::UnsupportedTrackNumber)));
}

#[test]
fn extension_elements_have_their_identifiers() {
    assert_eq!(MatroskaSpec::Color.id(), 0x55B0);
    assert_eq!(MatroskaSpec::TransferCharacteristics.id(), 0x55BA);
    assert_eq!(MatroskaSpec::EbmlDocType.id(), 0x4282);
}

#[test]
fn images_decode_to_rgba() {
    let ppm = b"P6\n2 1\n255\n\x01\x02\x03\x04\x05\x06".to_vec();
    match decode_image(&ppm) {
        Ok(f) => {
            assert_eq!((f.width, f.height), (2, 1));
            assert_eq!(f.rgba, vec![1, 2, 3, 255, 4, 5, 6, 255]);
        }
        Err(e) => panic!("{:?}", e),
    }
}

#[test]
fn samples_become_block_bytes() {
    assert_eq!(sample_bytes(&[0x0102, -2], true), vec![1, 2, 0xff, 0xfe]);
    assert_eq!(sample_bytes(&[0x0102, -2], false), vec![2, 1, 0xfe, 0xff]);
    match pcm_data(Samples::Sixteen(vec![0x0102]), false) {
        Ok(p) => {
            assert_eq!(p.bytes, vec![2, 1]);
            assert_eq!(p.sample_width, 2);
        }
        Err(e) => panic!("{:?}", e),
    }
    assert_eq!(float_le_bytes(&[1.0f32.to_bits()]), 1.0f32.to_le_bytes().to_vec());
    match pcm_data(Samples::ThirtyTwoFloat(vec![0.5f32.to_bits()]), true) {
        Ok(p) => {
            assert_eq!(p.bytes, 0.5f32.to_le_bytes().to_vec());
            assert_eq!(p.sample_width, 4);
        }
        Err(e) => panic!("{:?}", e),
    }
    assert!(matches!(pcm_data(Samples::TwentyFour(vec![1]), false), Err(e) if matches!(e.inner, ErrorKind::UnsupportedBitDepth(24))));
    assert!(matches!(pcm_data(Samples::Empty, false), Err(e) if matches!(e.inner, ErrorKind::UnsupportedAudio)));
}

#[test]
fn codec_identifiers() {
    let track = AudioTrack {
        sampling_frequency: 44100,
        channels: 2,
        bits_per_sample: 16,
        uid: 7,
        host_order: 1u16.to_ne_bytes(),
        codec: String::new(),
    };
    let expected = if 1u16.to_ne_bytes() == 1u16.to_be_bytes() { "A_PCM/INT/BIG" } else { "A_PCM/INT/LIT" };
    assert_eq!(track.pcm_format(), expected);
    assert_eq!(track.float_format(), "A_PCM/FLOAT/IEEE");
    assert_eq!(pcm_codec_for([0, 1]), "A_PCM/INT/BIG");
    assert_eq!(pcm_codec_for([1, 0]), "A_PCM/INT/LIT");
    assert_eq!(host_order(), 1u16.to_ne_bytes());
}

#[test]
fn riff_chunk_walk() {
    assert!(check_riff(b"RIFF"));
    assert!(check_riff(&[b'R', b'I', b'F', b'F', 4, 0, 0, 0, b'W', b'A', b'V', b'E']));
    assert!(!check_riff(b"RIFF....WAVEjunk"));
    let mut out = std::io::Cursor::new(Vec::new());
    wav::write(wav::Header::new(wav::WAV_FORMAT_PCM, 1, 8000, 8), &wav::BitDepth::Eight(vec![128; 16]), &mut out)
        .expect("writing a wave file to memory");
    let mut streamed = out.into_inner();
    streamed[4..8].copy_from_slice(&u32::MAX.to_le_bytes());
    assert!(check_riff(&streamed));
    assert!(!check_riff(&[b'R', b'I', b'F', b'F', 4, 0, 0, 0, 0xff, b'A', b'V', b'E']));
}

#[test]
fn runtime_settings() {
    assert_eq!(Limits::default().meta_size(), 2_000_000);
    assert_eq!(HwAccelFlavor::NoAccel.as_encoder_str(), "libx264");
    assert_eq!(HwAccelFlavor::NvEnc.as_encoder_str(), "h264_nvenc");
    assert_eq!(HwAccelFlavor::VdPau.as_encoder_str(), "h264_vdpau");
    let sink = SyncSink::new(String::from("/tmp/work"));
    assert_eq!(sink.work_dir(), "/tmp/work");
}
