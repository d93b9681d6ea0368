use rdsd2pcm::container::StreamError;
use rdsd2pcm::pcm_writer::{Block, OutPath, PcmWriter};
use rdsd2pcm::OutputType;

const BATCH: usize = 1 << 16;

fn silence(bits: usize, frames: usize) -> Block {
    if bits == 32 {
        Block::Floats(vec![0; frames])
    } else {
        Block::Rounded(vec![0; frames])
    }
}

/// A writer with an open stream that has written `frames` frames of one channel.
fn after(bits: usize, output: OutputType, frames: usize) -> PcmWriter {
    let mut w = PcmWriter::new(bits, output, 44_100, OutPath::Absent, 1, 1).ok().unwrap();
    w.open_stream(None, "1", 0).unwrap();
    let batch = silence(bits, BATCH);
    for _ in 0..frames / BATCH {
        w.write_to_buffer(&batch, 0);
        w.stream_batch_written(BATCH);
    }
    let rest = frames % BATCH;
    w.write_to_buffer(&silence(bits, rest), 0);
    w.stream_batch_written(rest);
    w
}

#[test]
fn wav_files_over_the_limit_are_refused() {
    let mut w = after(32, OutputType::Wav, 1_073_741_814);
    w.write_to_buffer(&silence(32, 1), 0);
    assert_eq!(w.finalize_stream().err(), Some(StreamError::WavTooLarge));
    assert!(!w.has_open_stream());
    assert!(w.finalize_stream().unwrap().is_none());
}

#[test]
fn aifc_files_over_the_form_limit_are_refused() {
    let mut w = after(32, OutputType::Aifc, 1_073_741_823);
    let finish = w.finalize_stream().unwrap().unwrap();
    assert_eq!(finish.patches.err(), Some(StreamError::AifcFormSize));
}

#[test]
fn aifc_files_over_the_chunk_limit_are_refused() {
    let mut w = after(32, OutputType::Aifc, 1_073_741_824);
    let finish = w.finalize_stream().unwrap().unwrap();
    assert_eq!(finish.patches.err(), Some(StreamError::AifcChunkSize));
}

#[test]
fn aiff_files_over_the_form_limit_are_refused() {
    let mut w = after(24, OutputType::Aiff, 1_431_655_765);
    let finish = w.finalize_stream().unwrap().unwrap();
    assert_eq!(finish.patches.err(), Some(StreamError::AiffFormSize));
}

#[test]
fn aiff_files_over_the_chunk_limit_are_refused() {
    let mut w = after(24, OutputType::Aiff, 1_431_655_766);
    let finish = w.finalize_stream().unwrap().unwrap();
    assert_eq!(finish.patches.err(), Some(StreamError::AiffChunkSize));
}
