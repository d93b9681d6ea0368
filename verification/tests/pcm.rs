use rdsd2pcm::audio_file::Finish;
use rdsd2pcm::clipping::ClipCounter;
use rdsd2pcm::pcm_writer::{
    is_buffer_fitting, Block, OutPath, PcmError, PcmWriter, StreamStart,
};
use rdsd2pcm::OutputType;

fn stdout_writer(bits: usize, frames: usize, channels: usize) -> PcmWriter {
    PcmWriter::new(bits, OutputType::Stdout, 88_200, OutPath::Absent, frames, channels)
        .ok()
        .unwrap()
}

fn error(bits: usize, output: OutputType, path: OutPath) -> String {
    PcmWriter::new(bits, output, 88_200, path, 4, 2).err().unwrap().message()
}

#[test]
fn unsupported_arguments_are_refused_in_order() {
    let missing = || OutPath::Missing("/no/such".to_string());
    assert_eq!(error(17, OutputType::Stdout, missing()), "Unsupported bit depth");
    assert_eq!(
        error(16, OutputType::Stdout, missing()),
        "Cannot specify output path when outputting to stdout"
    );
    assert_eq!(
        error(32, OutputType::Flac, missing()),
        "32 bit float only allowed with wav, aifc, or stdout"
    );
    assert_eq!(
        error(32, OutputType::Aiff, OutPath::Absent),
        "32 bit float only allowed with wav, aifc, or stdout"
    );
    assert_eq!(
        error(16, OutputType::Wav, missing()),
        "Specified output path does not exist: /no/such"
    );
    assert_eq!(
        error(16, OutputType::Wav, OutPath::Unresolved("denied".to_string())),
        "denied"
    );
    assert!(matches!(
        PcmWriter::new(8, OutputType::Wav, 1, OutPath::Absent, 1, 1).err().unwrap(),
        PcmError::BitDepth
    ));
}

#[test]
fn a_new_writer_knows_its_arguments() {
    let path = std::path::PathBuf::from("/tmp");
    let w = PcmWriter::new(
        20,
        OutputType::Flac,
        176_400,
        OutPath::Resolved(path.clone()),
        10,
        6,
    )
    .ok()
    .unwrap();
    assert_eq!(w.rate(), 176_400);
    assert_eq!(w.channels_num(), 6);
    assert_eq!(w.bits(), 20);
    assert_eq!(w.bytes_per_sample(), 3);
    assert_eq!(w.output(), OutputType::Flac);
    assert_eq!(w.path(), &Some(path));
    assert_eq!(w.clips(), 0);
    assert!(!w.has_open_stream());
    assert_eq!(w.write_stdout(180).unwrap(), vec![0u8; 180]);
}

#[test]
fn a_sink_takes_floats() {
    let mut w = PcmWriter::new_sink(44_100, 2, 2);
    assert_eq!(w.bytes_per_sample(), 4);
    assert_eq!(w.output(), OutputType::Stdout);
    let block = Block::Floats(vec![1.0f32.to_bits(), 2.0f32.to_bits()]);
    assert!(w.is_writable(&block, 1));
    assert!(!w.is_writable(&block, 2));
    w.write_to_buffer(&block, 1);
    let mut want: Vec<u8> = vec![0; 4];
    want.extend_from_slice(&1.0f32.to_le_bytes());
    want.extend_from_slice(&[0; 4]);
    want.extend_from_slice(&2.0f32.to_le_bytes());
    assert_eq!(w.write_stdout(16).unwrap(), want);
}

#[test]
fn samples_out_of_range_are_clamped() {
    let mut w = stdout_writer(16, 1, 1);
    assert_eq!(w.quantize(32_767), 32_767);
    assert_eq!(w.quantize(32_768), 32_767);
    assert_eq!(w.quantize(-32_768), -32_768);
    assert_eq!(w.quantize(-32_769), -32_768);
    assert_eq!(w.quantize(0x1_0000_0005), 5);
    let mut w = stdout_writer(24, 1, 1);
    assert_eq!(w.quantize(9_000_000), 8_388_607);
    let mut w = stdout_writer(20, 1, 1);
    assert_eq!(w.quantize(-9_000_000), -524_288);
}

#[test]
fn clipped_samples_in_a_row_count_once() {
    let mut w = stdout_writer(16, 1, 1);
    for v in [40_000, 0, 40_000, 40_000, 40_000, 0, -40_000, -40_000, 0, -40_000] {
        w.quantize(v);
    }
    assert_eq!(w.clips(), 2);
    let mut w = stdout_writer(16, 1, 1);
    for v in [40_000, -40_000, 40_000] {
        w.quantize(v);
    }
    assert_eq!(w.clips(), 1);
}

#[test]
fn samples_in_range_do_not_count() {
    let mut c = ClipCounter::new();
    for v in [-8, 7, 0, 3] {
        assert_eq!(c.quantize(8, v) as i64, v);
    }
    assert_eq!(c.clips(), 0);
    assert!(c.has_room(8, &vec![100; 1000]));
}

#[test]
fn channels_come_out_interleaved() {
    let mut w = stdout_writer(16, 2, 2);
    w.write_to_buffer(&Block::Rounded(vec![1, 2]), 0);
    w.write_to_buffer(&Block::Rounded(vec![-1, 100_000]), 1);
    assert_eq!(w.write_stdout(8).unwrap(), [1, 0, 0xFF, 0xFF, 2, 0, 0xFF, 0x7F]);
    assert_eq!(w.write_stdout(2).unwrap(), [1, 0]);
    assert!(w.write_stdout(0).is_none());
    assert!(w.write_stdout(9).is_none());
}

#[test]
fn samples_without_room_are_left_out() {
    let mut w = stdout_writer(24, 1, 1);
    w.write_to_buffer(&Block::Rounded(vec![0x010203, 7]), 0);
    assert_eq!(w.write_stdout(3).unwrap(), [3, 2, 1]);
}

#[test]
fn single_samples_are_packed() {
    let mut w = stdout_writer(20, 2, 1);
    let mut at: usize = 0;
    w.pack_int(&mut at, 0x12345);
    assert_eq!(at, 3);
    w.pack_int(&mut at, -1);
    assert_eq!(at, 6);
    w.pack_int(&mut at, 1);
    assert_eq!(at, 6);
    assert_eq!(w.write_stdout(6).unwrap(), [0x50, 0x34, 0x12, 0xF0, 0xFF, 0xFF]);
    let mut w = PcmWriter::new_sink(44_100, 1, 1);
    let mut at: usize = 0;
    w.pack_int(&mut at, 1);
    assert_eq!(at, 0);
    w.pack_float(&mut at, 0.5f32.to_bits());
    assert_eq!(at, 4);
    assert_eq!(w.write_stdout(4).unwrap(), 0.5f32.to_le_bytes());
}

#[test]
fn blocks_of_the_wrong_kind_are_not_writable() {
    let w = stdout_writer(16, 2, 2);
    assert!(!w.is_writable(&Block::Floats(vec![]), 0));
    assert!(w.is_writable(&Block::Rounded(vec![1, 2, 3]), 0));
    let w = PcmWriter::new_sink(44_100, 2, 2);
    assert!(!w.is_writable(&Block::Rounded(vec![]), 0));
}

fn file_bytes(mut file: Vec<u8>, finish: Finish) -> Vec<u8> {
    file.extend_from_slice(&finish.data);
    for p in finish.patches.unwrap() {
        let at = p.offset as usize;
        file[at..at + p.bytes.len()].copy_from_slice(&p.bytes);
    }
    file
}

#[test]
fn a_stream_takes_the_quantized_samples() {
    let mut w = PcmWriter::new(24, OutputType::Wav, 88_200, OutPath::Absent, 2, 2).ok().unwrap();
    let header = match w.open_stream(None, "1", 0).unwrap().unwrap() {
        StreamStart::Header(h) => h,
        StreamStart::Flac(_) => panic!("a FLAC stream"),
    };
    assert!(w.has_open_stream());
    assert!(!w.is_writable(&Block::Rounded(vec![1]), 2));
    w.write_to_buffer(&Block::Rounded(vec![1, 9_000_000]), 0);
    w.write_to_buffer(&Block::Rounded(vec![-1, -9_000_000]), 1);
    assert!(w.flush_stream().unwrap().is_none());
    let finish = w.finalize_stream().unwrap().unwrap();
    assert!(!w.has_open_stream());
    let bytes = file_bytes(header, finish);
    assert_eq!(
        &bytes[44..],
        &[1, 0, 0, 0xFF, 0xFF, 0xFF, 0xFF, 0xFF, 0x7F, 0, 0, 0x80]
    );
    assert!(w.finalize_stream().unwrap().is_none());
}

#[test]
fn streams_of_every_format_can_be_opened() {
    let formats = [
        (OutputType::Aiff, 16, 54usize),
        (OutputType::Aifc, 32, 4096),
        (OutputType::Wav, 32, 44),
    ];
    for (output, bits, size) in formats {
        let mut w =
            PcmWriter::new(bits, output, 44_100, OutPath::Absent, 1, 2).ok().unwrap();
        match w.open_stream(None, "1", 0).unwrap().unwrap() {
            StreamStart::Header(h) => assert_eq!(h.len(), size),
            StreamStart::Flac(_) => panic!("a FLAC stream"),
        }
        w.abort_stream();
        assert!(!w.has_open_stream());
    }
    let mut w =
        PcmWriter::new(24, OutputType::Flac, 44_100, OutPath::Absent, 1, 2).ok().unwrap();
    let mut tag = id3::Tag::new();
    id3::TagLike::set_title(&mut tag, "T");
    match w.open_stream(Some(tag), "1", 0).unwrap().unwrap() {
        StreamStart::Flac(s) => {
            assert_eq!((s.rate, s.bits_per_sample, s.channels), (44_100, 24, 2));
            assert_eq!(s.metadata.unwrap().0.fields, ["TITLE=T"]);
        }
        StreamStart::Header(_) => panic!("no FLAC stream"),
    }
    let mut w = stdout_writer(16, 1, 1);
    assert!(w.open_stream(None, "1", 0).unwrap().is_none());
    assert!(!w.has_open_stream());
}

#[test]
fn a_prepared_stream_leaves_the_open_one() {
    let mut w = PcmWriter::new(16, OutputType::Aiff, 44_100, OutPath::Absent, 1, 1).ok().unwrap();
    w.open_stream(None, "1", 0).unwrap();
    w.write_to_buffer(&Block::Rounded(vec![5]), 0);
    let (stream, start) = w.prepare_stream(None, "1", 0).unwrap().unwrap();
    assert!(matches!(start, StreamStart::Header(h) if h.len() == 54));
    w.write_to_buffer(&Block::Rounded(vec![6]), 0);
    assert_eq!(w.finalize_stream().unwrap().unwrap().data, [0, 5, 0, 6]);
    w.install_stream(stream);
    assert!(w.has_open_stream());
    assert!(w.finalize_stream().unwrap().unwrap().data.is_empty());
}

#[test]
fn a_stream_closes_once() {
    let mut w = PcmWriter::new(16, OutputType::Wav, 44_100, OutPath::Absent, 1, 1).ok().unwrap();
    assert!(w.finalize_stream().unwrap().is_none());
    w.open_stream(None, "1", 0).unwrap();
    assert!(w.finalize_stream().unwrap().is_some());
    assert!(!w.has_open_stream());
    assert!(w.finalize_stream().unwrap().is_none());
}

#[test]
fn runs_of_flags_count_once() {
    for (low, high) in [(true, false), (false, true)] {
        for k in 0..5 {
            let mut w = stdout_writer(16, 1, 1);
            w.update_clip_stats(true, false);
            w.update_clip_stats(true, false);
            w.update_clip_stats(false, false);
            let before = w.clips();
            for _ in 0..k {
                w.update_clip_stats(low, high);
            }
            assert_eq!(w.clips(), before + if k >= 2 { 1 } else { 0 });
        }
    }
}

#[test]
fn floats_go_to_a_stream_as_they_are() {
    let mut w = PcmWriter::new(32, OutputType::Aifc, 44_100, OutPath::Absent, 1, 1).ok().unwrap();
    w.open_stream(None, "1", 0).unwrap();
    w.write_to_buffer(&Block::Floats(vec![3.0f32.to_bits()]), 0);
    assert_eq!(w.finalize_stream().unwrap().unwrap().data, 3.0f32.to_be_bytes());
}

#[test]
fn batches_of_a_stream_are_dropped_once_written() {
    let frames: usize = 8 * 1024 * 1024;
    let mut w = PcmWriter::new(16, OutputType::Aiff, 44_100, OutPath::Absent, 1, 1).ok().unwrap();
    w.open_stream(None, "1", 0).unwrap();
    w.write_to_buffer(&Block::Rounded(vec![5; frames]), 0);
    let batch = w.flush_stream().unwrap().unwrap();
    assert_eq!(batch.frames, frames);
    w.stream_batch_written(frames);
    assert!(w.flush_stream().unwrap().is_none());
    w.write_to_buffer(&Block::Rounded(vec![6]), 0);
    let finish = w.finalize_stream().unwrap().unwrap();
    assert_eq!(finish.data, [0, 6]);
    let patches = finish.patches.unwrap();
    assert_eq!(patches[1].bytes, ((frames + 1) as u32).to_be_bytes());
}

#[test]
fn scaling_sets_the_peak_of_floats() {
    let mut w = PcmWriter::new_sink(44_100, 1, 1);
    w.set_scaling(4);
    assert_eq!(w.quantize(10), 3);
    let mut w = stdout_writer(16, 1, 1);
    w.set_scaling(4);
    assert_eq!(w.quantize(10), 10);
}

#[test]
fn buffers_that_cannot_be_are_told() {
    assert!(is_buffer_fitting(4096, 9, 24));
    assert!(!is_buffer_fitting(usize::MAX, 2, 16));
    assert!(!is_buffer_fitting(usize::MAX / 4, 1, 32));
}
