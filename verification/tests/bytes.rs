use rdsd2pcm::audio_file::{StreamingWriter, WavStreamWriter};
use rdsd2pcm::bytes::{low_word, push_ascii, push_be, push_le, push_zeros, word_byte, word_of};
use rdsd2pcm::samples::{
    drain_frames, encode_frames, min_frames, new_scratch, push_sample_bytes, StreamKind,
};

#[test]
fn numbers_are_read_back() {
    let mut b: Vec<u8> = Vec::new();
    push_le(&mut b, 0x0102_0304, 4);
    assert_eq!(u32::from_le_bytes(b[..].try_into().unwrap()), 0x0102_0304);
    push_be(&mut b, 0x0102_0304, 2);
    assert_eq!(b[4..], [3, 4]);
    push_ascii(&mut b, "RIFF");
    push_zeros(&mut b, 2);
    assert_eq!(&b[6..], b"RIFF\0\0");
    assert_eq!(word_of(-2), 0xFFFF_FFFE);
    assert_eq!(word_byte(0x0102_0304, 3), 1);
    assert_eq!(low_word(0x7_0000_0009), 9);
}

#[test]
fn samples_are_read_back() {
    let samples = [0i32, 1, -1, 8_388_607, -8_388_608, 123_456];
    let (mut writer, header) = WavStreamWriter::open(96_000, 24, 1, None).unwrap();
    for s in samples {
        writer.push_sample(0, s);
    }
    let data = writer.finalize().unwrap().data;
    assert_eq!(header.len(), 44);
    for (i, s) in samples.iter().enumerate() {
        let p = &data[3 * i..3 * i + 3];
        let read = i32::from_le_bytes([0, p[0], p[1], p[2]]) >> 8;
        assert_eq!(read, *s);
    }
}

#[test]
fn frames_written_in_batches_are_frames_written_at_once() {
    let scratch = || vec![vec![1, 2, 3], vec![4, 5, 6]];
    let whole = encode_frames(StreamKind::Aiff, 16, &scratch(), 3);
    assert_eq!(whole, [0, 1, 0, 4, 0, 2, 0, 5, 0, 3, 0, 6]);
    let mut rest = scratch();
    let mut parts = encode_frames(StreamKind::Aiff, 16, &rest, 1);
    drain_frames(&mut rest, 1);
    assert_eq!(min_frames(&rest), 2);
    parts.extend(encode_frames(StreamKind::Aiff, 16, &rest, 2));
    assert_eq!(parts, whole);
    assert_eq!(min_frames(&new_scratch(0)), 0);
    assert_eq!(min_frames(&new_scratch(3)), 0);
}

#[test]
fn single_samples_have_their_bytes() {
    let mut b: Vec<u8> = Vec::new();
    push_sample_bytes(&mut b, StreamKind::Flac, 20, 0x12345);
    push_sample_bytes(&mut b, StreamKind::Wav, 20, 0x12345);
    push_sample_bytes(&mut b, StreamKind::Aifc, 32, 0x3F80_0000);
    assert_eq!(b, [0x45, 0x23, 0x01, 0x50, 0x34, 0x12, 0x3F, 0x80, 0, 0]);
}
