use std::path::PathBuf;

use rdsd2pcm::conversion::{is_frames_cap_fitting, ConversionPlan, DsdSource, Rdsd2Pcm};
use rdsd2pcm::dsd_files::{dsd_extension_list, is_dsd_file, visit, FileSearch, PathKind, Visit};
use rdsd2pcm::extended::encode_extended;
use rdsd2pcm::pcm_writer::OutPath;
use rdsd2pcm::raw_filter::{parse_options, FilterOptions, OptionsError, PcmBlock, BLOCK};
use rdsd2pcm::{DsdRate, Endianness, FilterType, FmtType, OutputType};

fn source(block_size: u32, channels_num: u32, file_name: Option<&str>) -> DsdSource {
    DsdSource {
        in_format: FmtType::Planar,
        endianness: Endianness::LsbFirst,
        dsd_rate: DsdRate::DSD64,
        block_size,
        channels_num,
        file_name: file_name.map(str::to_owned),
    }
}

fn plan(decim_ratio: i32, upsample_ratio: u32) -> ConversionPlan {
    ConversionPlan {
        filt_type: FilterType::default(),
        append_rate_suffix: false,
        base_dir: PathBuf::from("."),
        decim_ratio,
        upsample_ratio,
    }
}

#[test]
fn frames_are_rounded_up() {
    assert_eq!(Rdsd2Pcm::calc_frames_cap(4096, 8, 1), 4096);
    assert_eq!(Rdsd2Pcm::calc_frames_cap(4096, -32, 1), 1024);
    assert_eq!(Rdsd2Pcm::calc_frames_cap(1, 3, 1), 3);
    assert_eq!(Rdsd2Pcm::calc_frames_cap(4096, 147, 5), 1131);
    assert_eq!(Rdsd2Pcm::calc_frames_cap(0, 8, 1), 0);
    assert!(is_frames_cap_fitting(4096, 147, 5));
    assert!(!is_frames_cap_fitting(4096, 0, 1));
    assert!(!is_frames_cap_fitting(4096, i32::MIN, 1));
    assert!(!is_frames_cap_fitting(usize::MAX, 8, 1));
}

#[test]
fn a_container_overrides_what_the_caller_says() {
    let c = Rdsd2Pcm::new(
        24,
        OutputType::Stdout,
        352_800,
        OutPath::Absent,
        source(1, 1, None),
        Some(source(4096, 6, Some("a.dsf"))),
        plan(8, 1),
    )
    .ok()
    .unwrap();
    assert_eq!(c.file_name(), "a.dsf");
    let (source, plan, writer) = c.into_parts();
    assert_eq!(source.channels_num, 6);
    assert_eq!(plan.decim_ratio, 8);
    assert_eq!(writer.channels_num(), 6);
    assert_eq!(writer.write_stdout(4096 * 6 * 3).unwrap().len(), 4096 * 6 * 3);
    assert!(writer.write_stdout(4096 * 6 * 3 + 1).is_none());
}

#[test]
fn standard_input_has_no_name() {
    let c = Rdsd2Pcm::new(
        16,
        OutputType::Flac,
        88_200,
        OutPath::Absent,
        source(4096, 2, None),
        None,
        plan(32, 1),
    )
    .ok()
    .unwrap();
    assert_eq!(c.file_name(), "");
}

#[test]
fn bit_depths_of_a_conversion_are_checked() {
    let e = Rdsd2Pcm::from_container(
        -16,
        OutputType::Wav,
        88_200,
        OutPath::Absent,
        source(4096, 2, Some("a.dff")),
        plan(32, 1),
    )
    .err()
    .unwrap();
    assert_eq!(e.message(), "Unsupported bit depth");
    let c = Rdsd2Pcm::from_container(
        32,
        OutputType::Wav,
        88_200,
        OutPath::Absent,
        source(4096, 2, Some("a.dff")),
        plan(32, 1),
    );
    assert!(c.is_ok());
}

#[test]
fn dsd_files_are_known_by_their_extensions() {
    assert!(is_dsd_file(true, Some("dsf")));
    assert!(is_dsd_file(true, Some("DFF")));
    assert!(is_dsd_file(true, Some("dSd")));
    assert!(!is_dsd_file(true, Some("wav")));
    assert!(!is_dsd_file(true, None));
    assert!(!is_dsd_file(false, Some("dsf")));
}

#[test]
fn visits_are_decided() {
    assert_eq!(visit(PathKind::Directory, None, true), Visit::List);
    assert_eq!(visit(PathKind::Directory, Some("dsf"), false), Visit::Skip);
    assert_eq!(visit(PathKind::File, Some("dsf"), false), Visit::Keep);
    assert_eq!(visit(PathKind::File, Some("txt"), true), Visit::Skip);
    assert_eq!(visit(PathKind::Other, Some("dsf"), true), Visit::Skip);
}

/// Searches a tree in memory: directories end in a slash, and hold what begins
/// with their name and has no further slash within.
fn search(tree: &[&str], roots: &[&str], recurse: bool) -> Vec<String> {
    let mut s = FileSearch::new(roots.iter().map(PathBuf::from).collect(), recurse);
    while let Some((path, may_list)) = s.next_path() {
        let name = path.to_str().unwrap().to_owned();
        let kind = if name.ends_with('/') { PathKind::Directory } else { PathKind::File };
        match visit(kind, path.extension().and_then(|e| e.to_str()), may_list) {
            Visit::List => {
                let entries = tree
                    .iter()
                    .filter(|t| {
                        t.len() > name.len()
                            && t.starts_with(&name)
                            && !t[name.len()..t.len() - 1].contains('/')
                    })
                    .map(PathBuf::from)
                    .collect();
                s.listed(entries);
            }
            Visit::Keep => s.keep(path),
            Visit::Skip => {}
        }
    }
    s.into_found().iter().map(|p| p.to_str().unwrap().to_owned()).collect()
}

#[test]
fn searches_find_all_files() {
    let tree = ["m/", "m/a.dsf", "m/n/", "m/n/b.DFF", "m/n/c.txt", "m/d.dsd", "e.dsf"];
    assert_eq!(search(&tree, &["m/", "e.dsf"], true), ["m/a.dsf", "m/n/b.DFF", "m/d.dsd", "e.dsf"]);
    assert_eq!(search(&tree, &["m/", "e.dsf"], false), ["m/a.dsf", "m/d.dsd", "e.dsf"]);
    assert!(search(&tree, &[], true).is_empty());
}

#[test]
fn recursion_finds_what_is_found_without() {
    let tree = ["m/", "m/a.dsf", "m/n/", "m/n/b.dff", "f/", "f/c.dsd"];
    let with = search(&tree, &["m/", "f/"], true);
    let without = search(&tree, &["m/", "f/"], false);
    assert!(without.iter().all(|p| with.contains(p)));
    assert_eq!(with.len(), without.len() + 1);
    assert_eq!(search(&tree, &["f/"], true), search(&tree, &["f/"], false));
}

#[test]
fn extensions_are_listed() {
    assert_eq!(dsd_extension_list(), ["dsf", "dff", "dsd"]);
}

#[test]
fn rates_become_extended_floats() {
    let mut b = [9u8; 10];
    encode_extended(44_100, &mut b);
    assert_eq!(b, [0x40, 0x0E, 0xAC, 0x44, 0, 0, 0, 0, 0, 0]);
    encode_extended(1, &mut b);
    assert_eq!(b, [0x3F, 0xFF, 0x80, 0, 0, 0, 0, 0, 0, 0]);
    encode_extended(0, &mut b);
    assert_eq!(b, [0; 10]);
    encode_extended(u32::MAX, &mut b);
    assert_eq!(b, [0x40, 0x1E, 0xFF, 0xFF, 0xFF, 0xFF, 0, 0, 0, 0]);
}

fn options(args: &[&str]) -> Result<FilterOptions, OptionsError> {
    parse_options(&args.iter().map(|a| a.to_string()).collect())
}

#[test]
fn filter_options_are_read() {
    assert_eq!(
        options(&["dsd2pcm", "2", "L", "24"]),
        Ok(FilterOptions { channels: 2, lsb_first: true, bits: 24 })
    );
    assert_eq!(
        options(&["dsd2pcm", "+09", "m", "16"]),
        Ok(FilterOptions { channels: 9, lsb_first: false, bits: 16 })
    );
    assert_eq!(options(&["dsd2pcm", "2", "L"]), Err(OptionsError::Usage));
    for bad in [
        ["x", "0", "L", "16"],
        ["x", "10", "L", "16"],
        ["x", "18446744073709551618", "L", "16"],
        ["x", "", "L", "16"],
        ["x", "+", "L", "16"],
        ["x", "-1", "L", "16"],
        ["x", "2x", "L", "16"],
        ["x", "2", "LL", "16"],
        ["x", "2", "L", "20"],
    ] {
        assert_eq!(options(&bad), Err(OptionsError::Invalid));
    }
}

#[test]
fn filter_blocks_are_interleaved() {
    let mut b = PcmBlock::new(FilterOptions { channels: 2, lsb_first: true, bits: 24 });
    assert_eq!(b.dsd_size(), 8192);
    assert_eq!(b.dsd_start(1), 4096);
    b.put_channel(0, &vec![0x010203; BLOCK]);
    b.put_channel(1, &vec![-2; BLOCK]);
    assert_eq!(b.bytes().len(), 4096 * 6);
    for frame in b.bytes().chunks(6) {
        assert_eq!(frame, [3, 2, 1, 0xFE, 0xFF, 0xFF]);
    }
}
