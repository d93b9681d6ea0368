//! A library for converting DSD to PCM.
//!
//! - Samples: `clipping` brings rounded samples into range, `samples` lays them
//!   down as bytes, `stdout_layout` is about their order on standard output.
//! - Files: `container` knows the headers of WAV, AIFF and AIFC files,
//!   `stream_model` what a stream of samples writes when, `audio_file` has the
//!   writers, and `pcm_writer` drives them. `header_fields` says what a reader finds
//!   in the headers, `writer_laws` what the writers promise as a whole.
//! - Tags: `id3_frames` reads ID3 tags, `tag_fields` and `cover` map them to Vorbis
//!   comments and pictures, and `tag_util` makes the metadata of FLAC files.
//!   `field_names` says, name by name, which frame becomes which field.
//! - `conversion` puts an input and a writer together, `dsd_files` searches for
//!   input files, `path_order` sorts what was found, and `raw_filter` is the filter
//!   from raw DSD to raw PCM.
//!
//! Nothing here touches a file: functions say what to read and write, and take
//! what was read.
use vstd::prelude::*;

pub mod audio_file;
pub mod bytes;
pub mod clipping;
pub mod container;
pub mod conversion;
pub mod cover;
pub mod dsd_files;
pub mod extended;
pub mod field_names;
pub mod header_fields;
pub mod id3_frames;
pub mod path_order;
pub mod pcm_writer;
pub mod raw_filter;
pub mod samples;
pub mod stdout_layout;
pub mod stream_model;
pub mod tag_fields;
pub mod tag_util;
pub mod text;
pub mod types;
pub mod writer_laws;

pub use crate::conversion::Rdsd2Pcm;
pub use crate::dsd_files::is_dsd_file;
pub use crate::types::{DitherType, DsdRate, Endianness, FilterType, FmtType, OutputType};
