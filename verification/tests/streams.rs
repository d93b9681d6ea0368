use std::io::{Cursor, Read, Write};

use flac_codec::byteorder::LittleEndian;
use flac_codec::decode::FlacByteReader;
use flac_codec::encode::{FlacByteWriter, Options};
use rdsd2pcm::audio_file::{
    AifcStreamWriter, AiffStreamWriter, Finish, FlacStreamWriter, FloatStreamingWriter,
    StreamWriter, StreamingWriter, WavStreamWriter,
};
use rdsd2pcm::container::{wav_header_is_fitting, StreamError};

/// The file that is left behind: header and samples, with the patches made.
fn finished(mut file: Vec<u8>, finish: Finish) -> Vec<u8> {
    file.extend_from_slice(&finish.data);
    for p in finish.patches.unwrap() {
        let at = p.offset as usize;
        file[at..at + p.bytes.len()].copy_from_slice(&p.bytes);
    }
    file
}

#[test]
fn wav_stream_writer_uses_standard_riff_header() {
    let (mut writer, header) = WavStreamWriter::open(44_100, 16, 2, None).unwrap();
    writer.push_sample(0, 0);
    writer.push_sample(1, 32767);
    let finish = <WavStreamWriter as StreamingWriter>::finalize(writer).unwrap();

    let bytes = finished(header, finish);
    assert_eq!(&bytes[..4], b"RIFF");
    assert!(!bytes.windows(4).any(|chunk| chunk == b"JUNK"));

    let riff_size = u32::from_le_bytes(bytes[4..8].try_into().unwrap());
    let data_size = u32::from_le_bytes(bytes[40..44].try_into().unwrap());
    assert_eq!(riff_size, (bytes.len() as u32).saturating_sub(8));
    assert_eq!(data_size, 4);
}

#[test]
fn wav_header_is_exact() {
    let (_, header) = WavStreamWriter::open(88_200, 24, 2, None).unwrap();
    let mut want: Vec<u8> = Vec::new();
    want.extend_from_slice(b"RIFF\0\0\0\0WAVEfmt ");
    want.extend_from_slice(&16u32.to_le_bytes());
    want.extend_from_slice(&1u16.to_le_bytes());
    want.extend_from_slice(&2u16.to_le_bytes());
    want.extend_from_slice(&88_200u32.to_le_bytes());
    want.extend_from_slice(&(88_200u32 * 6).to_le_bytes());
    want.extend_from_slice(&6u16.to_le_bytes());
    want.extend_from_slice(&24u16.to_le_bytes());
    want.extend_from_slice(b"data\0\0\0\0");
    assert_eq!(header, want);
}

#[test]
fn wav_float_samples_keep_their_bits() {
    let (mut writer, header) = WavStreamWriter::open(44_100, 32, 1, None).unwrap();
    assert_eq!(&header[20..22], &3u16.to_le_bytes());
    let sample: f32 = -0.625;
    writer.push_sample_f32(0, sample.to_bits());
    let bytes = finished(header, writer.finalize().unwrap());
    assert_eq!(&bytes[44..], &sample.to_le_bytes());
}

#[test]
fn wav_20_bit_samples_fill_the_upper_bits() {
    let (mut writer, header) = WavStreamWriter::open(44_100, 20, 1, None).unwrap();
    writer.push_sample(0, 0x12345);
    writer.push_sample(0, -1);
    let bytes = finished(header, writer.finalize().unwrap());
    assert_eq!(&bytes[44..], &[0x50, 0x34, 0x12, 0xF0, 0xFF, 0xFF]);
}

#[test]
fn samples_of_16_bits_are_clamped() {
    let (mut writer, header) = AiffStreamWriter::open(44_100, 16, 1, None).unwrap();
    writer.push_sample(0, 40_000);
    writer.push_sample(0, -40_000);
    writer.push_sample(0, -2);
    let bytes = finished(header, writer.finalize().unwrap());
    assert_eq!(&bytes[54..], &[0x7F, 0xFF, 0x80, 0x00, 0xFF, 0xFE]);
}

#[test]
fn aiff_file_is_exact() {
    let (mut writer, header) = AiffStreamWriter::open(44_100, 24, 2, None).unwrap();
    assert_eq!(header.len(), 54);
    writer.push_sample(0, 0x010203);
    writer.push_sample(1, -1);
    writer.push_sample(0, 7);
    let bytes = finished(header, writer.finalize().unwrap());
    let mut want: Vec<u8> = Vec::new();
    want.extend_from_slice(b"FORM");
    want.extend_from_slice(&52u32.to_be_bytes());
    want.extend_from_slice(b"AIFFCOMM");
    want.extend_from_slice(&18u32.to_be_bytes());
    want.extend_from_slice(&2u16.to_be_bytes());
    want.extend_from_slice(&1u32.to_be_bytes());
    want.extend_from_slice(&24u16.to_be_bytes());
    want.extend_from_slice(&[0x40, 0x0E, 0xAC, 0x44, 0, 0, 0, 0, 0, 0]);
    want.extend_from_slice(b"SSND");
    want.extend_from_slice(&6u32.to_be_bytes());
    want.extend_from_slice(&[0; 8]);
    want.extend_from_slice(&[1, 2, 3, 0xFF, 0xFF, 0xFF]);
    assert_eq!(bytes, want);
}

#[test]
fn aifc_samples_begin_on_a_page() {
    let (mut writer, header) = AifcStreamWriter::open(352_800, 32, 2, None).unwrap();
    assert_eq!(header.len(), 4096);
    assert_eq!(&header[8..24], b"AIFCFVER\0\0\0\x04\xA2\x80\x51\x40");
    assert_eq!(&header[24..32], b"COMM\0\0\0\x44");
    assert_eq!(&header[50..54], b"fl32");
    assert_eq!(header[54], 44);
    assert_eq!(&header[55..99], b"Linear PCM, 32 bit big-endian floating point");
    assert_eq!(&header[100..108], b"FLLR\0\0\x0F\x84");
    writer.push_sample_f32(0, 1.0f32.to_bits());
    writer.push_sample_f32(1, (-0.5f32).to_bits());
    let bytes = finished(header, writer.finalize().unwrap());
    let size = |at: usize| u32::from_be_bytes(bytes[at..at + 4].try_into().unwrap());
    assert_eq!(size(4) as usize, bytes.len() - 8);
    assert_eq!(size(34), 1);
    assert_eq!(&bytes[4080..4084], b"SSND");
    assert_eq!(size(4084), 16);
    assert_eq!(&bytes[4096..4100], &1.0f32.to_be_bytes());
    assert_eq!(&bytes[4100..], &(-0.5f32).to_be_bytes());
}

#[test]
fn aifc_integer_types_have_names() {
    let (_, header) = AifcStreamWriter::open(44_100, 16, 1, None).unwrap();
    assert_eq!(&header[50..54], b"twos");
    assert_eq!(&header[55..99], b"Linear PCM, 16 bit big-endian signed integer");
    let (_, header) = AifcStreamWriter::open(44_100, 20, 1, None).unwrap();
    assert_eq!(&header[50..54], b"NONE");
    assert_eq!(&header[55..99], b"Linear PCM, 24 bit big-endian signed integer");
}

#[test]
fn bit_depths_that_a_format_lacks_are_refused() {
    let e = AiffStreamWriter::open(44_100, 32, 2, None).err().unwrap();
    assert_eq!(e, StreamError::AiffBits);
    assert_eq!(e.message(), "AIFF: only 16, 20, or 24-bit supported");
    let e = AifcStreamWriter::open(44_100, 8, 2, None).err().unwrap();
    assert_eq!(e, StreamError::AifcBits);
    assert_eq!(e.message(), "AIFC: only 16, 20, 24, or 32-bit supported");
    let e = WavStreamWriter::open(44_100, 8, 2, None).err().unwrap();
    assert_eq!(e, StreamError::WavBits);
    assert_eq!(e.message(), "WAV: only 16, 20, 24, or 32-bit supported");
    let e = FlacStreamWriter::open(44_100, 8, 2, None, "1", 0).err().unwrap();
    assert_eq!(e, StreamError::FlacBits);
    assert_eq!(e.message(), "FLAC: only 16, 20, or 24-bit supported");
}

#[test]
fn files_that_are_too_large_have_messages() {
    let texts = [
        (StreamError::AiffChunkSize, "AIFF stream too large for 32-bit AIFF chunk sizes"),
        (StreamError::AiffFormSize, "AIFF stream too large for 32-bit AIFF FORM size"),
        (StreamError::AifcChunkSize, "AIFC stream too large for 32-bit AIFF/AIFC chunk sizes"),
        (StreamError::AifcFormSize, "AIFC stream too large for 32-bit AIFF/AIFC FORM size"),
        (StreamError::WavTooLarge, "File too large for standard WAV (4GB limit)"),
    ];
    for (e, text) in texts {
        assert_eq!(e.message(), text);
    }
}

#[test]
fn a_small_batch_waits() {
    let (mut writer, header) = AiffStreamWriter::open(44_100, 16, 1, None).unwrap();
    writer.push_sample(0, 1);
    assert!(writer.flush_ready().unwrap().is_none());
    let bytes = finished(header, writer.finalize().unwrap());
    assert_eq!(&bytes[54..], &[0, 1]);
}

#[test]
fn flac_batches_and_rest_are_everything_that_was_pushed() {
    let frames: usize = 2 * 1024 * 1024;
    let (writer, _) = FlacStreamWriter::open(44_100, 16, 1, None, "1", 0).unwrap();
    let mut writer = StreamWriter::Flac(writer);
    for i in 0..frames + 3 {
        if i == frames {
            let batch = writer.flush_ready().unwrap().unwrap();
            assert_eq!(batch.frames, frames);
            assert_eq!(batch.bytes.len(), 2 * frames);
            assert_eq!(&batch.bytes[2..6], &[1, 0, 2, 0]);
            writer.batch_written(batch.frames);
            assert!(writer.flush_ready().unwrap().is_none());
        }
        writer.push_sample(0, (i % 1000) as i32);
    }
    let rest = writer.finalize().unwrap();
    let want: Vec<u8> = (frames..frames + 3)
        .flat_map(|i| ((i % 1000) as i16).to_le_bytes())
        .collect();
    assert_eq!(rest.data, want);
    assert!(rest.patches.unwrap().is_empty());
}

#[test]
fn uneven_channels_leave_whole_frames_only() {
    let (mut writer, header) = WavStreamWriter::open(44_100, 16, 2, None).unwrap();
    writer.push_sample(0, 1);
    writer.push_sample(0, 2);
    writer.push_sample(1, 3);
    let bytes = finished(header, writer.finalize().unwrap());
    assert_eq!(&bytes[44..], &[1, 0, 3, 0]);
}

#[test]
fn the_tag_comes_back_at_the_end() {
    let tag = id3::Tag::with_version(id3::Version::Id3v23);
    let (writer, _) = WavStreamWriter::open(44_100, 16, 2, Some(tag)).unwrap();
    let finish = writer.finalize().unwrap();
    assert_eq!(finish.tag.unwrap().version(), id3::Version::Id3v23);
}

#[test]
fn flac_encoder_gives_the_samples_back() {
    let (mut writer, start) = FlacStreamWriter::open(88_200, 32, 2, None, "1", 0).unwrap();
    assert_eq!(start.bits_per_sample, 24);
    assert_eq!(start.channels, 2);
    assert!(start.metadata.is_none());
    let samples: [(i32, i32); 3] = [(0, -1), (8_388_607, -8_388_608), (123_456, 42)];
    for (l, r) in samples {
        writer.push_sample(0, l);
        writer.push_sample(1, r);
    }
    let fed = writer.finalize().unwrap().data;
    let mut file: Vec<u8> = Vec::new();
    let mut encoder: FlacByteWriter<_, LittleEndian> = FlacByteWriter::new(
        Cursor::new(&mut file),
        Options::default(),
        start.rate,
        start.bits_per_sample,
        start.channels,
        None,
    )
    .unwrap();
    encoder.write_all(&fed).unwrap();
    encoder.finalize().unwrap();
    let mut read: Vec<u8> = Vec::new();
    FlacByteReader::<_, LittleEndian>::new(Cursor::new(&file))
        .unwrap()
        .read_to_end(&mut read)
        .unwrap();
    assert_eq!(read, fed);
    assert_eq!(&fed[6..12], &[0xFF, 0xFF, 0x7F, 0, 0, 0x80]);
}

#[test]
fn wav_headers_that_overflow_are_told() {
    assert!(wav_header_is_fitting(2_822_400, 32, 6));
    assert!(!wav_header_is_fitting(u32::MAX, 16, 2));
}
