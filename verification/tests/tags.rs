use id3::frame::{
    Comment, Content, ExtendedText, InvolvedPeopleList, InvolvedPeopleListItem, Lyrics, Picture,
    PictureType, UniqueFileIdentifier,
};
use id3::{Frame, Tag, TagLike};
use rdsd2pcm::cover::is_color_depth_fitting;
use rdsd2pcm::id3_frames::{
    read_frames, read_numbers, CoverKind, Id3Content, Id3Frame, Person, TagNumbers,
};
use rdsd2pcm::tag_fields::{are_names_insertable, vorbis_fields};
use rdsd2pcm::tag_util::{id3_to_vorbis, is_tag_convertible, try_id3_to_vorbis, vendor_string};
use rdsd2pcm::text::{eq_ignore_ascii_case, split_values, to_decimal, to_decimal_signed};

fn fields(tag: &Tag) -> Vec<String> {
    id3_to_vorbis(tag, "0.1.0", 7).0.fields
}

fn people(items: &[(&str, &str)]) -> Content {
    Content::InvolvedPeopleList(InvolvedPeopleList {
        items: items
            .iter()
            .map(|(involvement, involvee)| InvolvedPeopleListItem {
                involvement: involvement.to_string(),
                involvee: involvee.to_string(),
            })
            .collect(),
    })
}

/// A PNG header: signature, header chunk and its checksum.
fn png(width: u32, height: u32, bit_depth: u8, color_type: u8) -> Vec<u8> {
    let mut data = b"\x89PNG\r\n\x1A\n\0\0\0\x0DIHDR".to_vec();
    data.extend_from_slice(&width.to_be_bytes());
    data.extend_from_slice(&height.to_be_bytes());
    data.extend_from_slice(&[bit_depth, color_type, 0, 0, 0, 0, 0, 0, 0]);
    data
}

/// A JPEG image of one application segment and a frame header.
fn jpeg(precision: u8, components: u8) -> Vec<u8> {
    let mut data = vec![0xFF, 0xD8, 0xFF, 0xE0, 0, 6, 1, 2, 3, 4];
    data.extend_from_slice(&[0xFF, 0xC0, 0, 17, precision, 0, 20, 0, 10, components]);
    data
}

fn picture(picture_type: PictureType, description: &str, data: Vec<u8>) -> Picture {
    Picture {
        mime_type: "image/png".to_string(),
        picture_type,
        description: description.to_string(),
        data,
    }
}

#[test]
fn text_frames_become_fields() {
    let mut tag = Tag::new();
    tag.set_text("TIT2", "A title");
    tag.set_text("TPE1", "One\0\0Two\0");
    tag.set_text("TENC", "me");
    tag.set_text("TXYZ", "not mapped");
    assert_eq!(
        fields(&tag),
        ["ARTIST=One", "ARTIST=Two", "TITLE=A title", "ENCODER=me"]
    );
}

#[test]
fn track_and_disc_numbers_become_fields() {
    let mut tag = Tag::new();
    tag.set_text("TRCK", "+03/12");
    tag.set_text("TPOS", "2");
    assert_eq!(
        fields(&tag),
        ["TRACKNUMBER=3", "TOTALTRACKS=12", "TRACKTOTAL=12", "DISCNUMBER=2"]
    );
    let n = read_numbers(&tag);
    assert_eq!((n.track, n.total_tracks), (Some(3), Some(12)));
    assert_eq!((n.disc, n.total_discs), (Some(2), None));
    let mut tag = Tag::new();
    tag.set_text("TRCK", "x/12");
    tag.set_text("TPOS", "1\0".to_owned() + "4");
    assert_eq!(fields(&tag), ["DISCNUMBER=1", "TOTALDISCS=4", "DISCTOTAL=4"]);
}

#[test]
fn the_date_is_the_time_of_recording_or_the_year() {
    let mut tag = Tag::new();
    tag.set_text("TYER", "0987");
    assert_eq!(fields(&tag), ["DATE=987"]);
    tag.set_text("TDRC", " 1999-7-4");
    assert_eq!(fields(&tag), ["DATE=1999-07-04"]);
    assert_eq!(read_numbers(&tag).year, Some(987));
    let mut tag = Tag::new();
    tag.set_text("TYER", "0");
    assert!(fields(&tag).is_empty());
    tag.set_text("TYER", "-5");
    assert_eq!(fields(&tag), ["DATE=-5"]);
}

#[test]
fn the_original_date_falls_back() {
    let mut tag = Tag::new();
    tag.set_text("TORY", "1961");
    assert_eq!(fields(&tag), ["ORIGINALDATE=1961"]);
    tag.set_text("TDOR", "1960-01");
    assert_eq!(fields(&tag), ["ORIGINALDATE=1960-01"]);
    let mut tag = Tag::new();
    tag.add_frame(Frame::with_content("TDOR", Content::Link("no text".to_string())));
    tag.set_text("TORY", "1961");
    assert!(fields(&tag).is_empty());
}

#[test]
fn movement_comment_and_lyrics_become_fields() {
    let mut tag = Tag::new();
    tag.set_text("MVIN", "1/4");
    tag.add_frame(Comment {
        lang: "eng".to_string(),
        description: "d".to_string(),
        text: "a comment".to_string(),
    });
    tag.add_frame(Lyrics {
        lang: "eng".to_string(),
        description: String::new(),
        text: "la la".to_string(),
    });
    assert_eq!(
        fields(&tag),
        ["MOVEMENTTOTAL=1/4", "MOVEMENT=1/4", "COMMENT=a comment", "LYRICS=la la"]
    );
}

#[test]
fn people_become_fields_by_their_roles() {
    let mut tag = Tag::new();
    tag.add_frame(Frame::with_content(
        "TIPL",
        people(&[("Producer", "P"), ("DJ-MIX", "D"), ("cook", "C"), ("mix", "M")]),
    ));
    tag.add_frame(Frame::with_content("TMCL", people(&[("piano", "B. Evans")])));
    assert_eq!(
        fields(&tag),
        ["PRODUCER=P", "DJMIXER=D", "MIXER=M", "PERFORMER=B. Evans (piano)"]
    );
}

#[test]
fn identifiers_and_links_become_fields() {
    let mut tag = Tag::new();
    tag.add_frame(UniqueFileIdentifier {
        owner_identifier: "http://musicbrainz.org".to_string(),
        identifier: b"\xC3\xA9-1".to_vec(),
    });
    tag.add_frame(UniqueFileIdentifier {
        owner_identifier: "http://example.org".to_string(),
        identifier: b"2".to_vec(),
    });
    tag.add_frame(Frame::link("WCOP", "http://license"));
    tag.add_frame(Frame::link("WOAR", "http://artist"));
    assert_eq!(
        fields(&tag),
        ["MUSICBRAINZ_TRACKID=\u{e9}-1", "LICENSE=http://license", "WEBSITE=http://artist"]
    );
    let mut tag = Tag::new();
    tag.add_frame(UniqueFileIdentifier {
        owner_identifier: "http://musicbrainz.org".to_string(),
        identifier: vec![0xFF],
    });
    assert!(fields(&tag).is_empty());
}

fn extended(description: &str, value: &str) -> ExtendedText {
    ExtendedText { description: description.to_string(), value: value.to_string() }
}

#[test]
fn extended_texts_become_fields() {
    let mut tag = Tag::new();
    tag.add_frame(extended("replaygain_track_gain", "-6.5 dB"));
    tag.add_frame(extended("Barcode", "1\0".to_owned().as_str()));
    tag.add_frame(extended("My Field", "a\0b"));
    tag.add_frame(extended("", "ignored"));
    assert_eq!(
        fields(&tag),
        ["REPLAYGAIN_TRACK_GAIN=-6.5 dB", "BARCODE=1", "My Field=a", "My Field=b"]
    );
}

#[test]
fn names_with_an_equals_sign_are_told() {
    let mut tag = Tag::new();
    tag.add_frame(extended("a=b", "\0"));
    assert!(is_tag_convertible(&tag));
    assert!(fields(&tag).is_empty());
    tag.add_frame(extended("c=d", "value"));
    assert!(!is_tag_convertible(&tag));
    assert!(try_id3_to_vorbis(&tag, "1", 0).is_none());
    assert!(!are_names_insertable(&read_frames(&tag)));
}

#[test]
fn fields_are_read_back_at_their_first_equals_sign() {
    let mut tag = Tag::new();
    tag.set_text("TALB", "x=y=z");
    let (comment, _) = try_id3_to_vorbis(&tag, "1", 0).unwrap();
    assert_eq!(comment.get("ALBUM"), Some("x=y=z"));
}

#[test]
fn the_vendor_text_gives_version_and_time() {
    let tag = Tag::new();
    let (comment, pictures) = id3_to_vorbis(&tag, "0.1.0", 1_700_000_000);
    assert_eq!(comment.vendor_string, "dsd2dxd v0.1.0 Unix datetime 1700000000");
    assert_eq!(vendor_string("2", 0), "dsd2dxd v2 Unix datetime 0");
    assert!(pictures.is_empty());
}

#[test]
fn covers_become_pictures() {
    let mut tag = Tag::new();
    tag.add_frame(picture(PictureType::CoverBack, "back", jpeg(8, 3)));
    tag.add_frame(picture(PictureType::Artist, "artist", png(1, 1, 8, 2)));
    tag.add_frame(picture(PictureType::CoverFront, "front", png(2, 3, 8, 6)));
    let (_, pictures) = id3_to_vorbis(&tag, "1", 0);
    assert_eq!(pictures.len(), 2);
    assert_eq!(pictures[0].kind, CoverKind::Back);
    assert_eq!(pictures[0].media_type, "image/jpeg");
    assert_eq!((pictures[0].width, pictures[0].height, pictures[0].color_depth), (10, 20, 24));
    assert_eq!(pictures[1].kind, CoverKind::Front);
    assert_eq!(pictures[1].description, "front");
    assert_eq!(pictures[1].media_type, "image/png");
    assert_eq!((pictures[1].width, pictures[1].height, pictures[1].color_depth), (2, 3, 32));
    assert_eq!(pictures[1].colors_used, None);
    assert_eq!(pictures[1].data, png(2, 3, 8, 6));
    let mut tag = Tag::new();
    tag.add_frame(picture(PictureType::CoverFront, "no image", b"text".to_vec()));
    assert!(id3_to_vorbis(&tag, "1", 0).1.is_empty());
}

#[test]
fn color_depths_that_do_not_fit_are_told() {
    assert!(is_color_depth_fitting(&png(1, 1, 16, 6)));
    assert!(!is_color_depth_fitting(&png(1, 1, 64, 6)));
    assert!(is_color_depth_fitting(&png(1, 1, 255, 0)));
    assert!(is_color_depth_fitting(&jpeg(8, 4)));
    assert!(!is_color_depth_fitting(&jpeg(128, 2)));
    assert!(is_color_depth_fitting(&vec![]));
    assert!(is_color_depth_fitting(&b"GIF89a".to_vec()));
    let mut tag = Tag::new();
    tag.add_frame(picture(PictureType::Other, "", png(1, 1, 64, 6)));
    assert!(is_tag_convertible(&tag));
    tag.add_frame(picture(PictureType::CoverFront, "", png(1, 1, 64, 6)));
    assert!(!is_tag_convertible(&tag));
}

#[test]
fn frames_are_read_in_order() {
    let mut tag = Tag::new();
    tag.set_text("TIT2", "t");
    tag.add_frame(Frame::link("WOAR", "l"));
    tag.add_frame(picture(PictureType::CoverFront, "p", vec![1, 2]));
    tag.add_frame(Frame::with_content("TIPL", people(&[("mix", "M")])));
    tag.add_frame(extended("d", "v"));
    let frames = read_frames(&tag);
    let ids: Vec<&str> = frames.iter().map(|f| f.id.as_str()).collect();
    assert_eq!(ids, ["TIT2", "WOAR", "APIC", "TIPL", "TXXX"]);
    assert!(matches!(&frames[0].content, Id3Content::Text(t) if t == "t"));
    assert!(matches!(&frames[1].content, Id3Content::Link(t) if t == "l"));
    assert!(matches!(
        &frames[2].content,
        Id3Content::Picture(p) if p.kind == CoverKind::Front && p.data == [1, 2]
    ));
    assert!(matches!(
        &frames[3].content,
        Id3Content::People(p) if p.len() == 1 && p[0].involvee == "M"
    ));
    assert!(matches!(&frames[4].content, Id3Content::ExtendedText(d, v) if d == "d" && v == "v"));
}

#[test]
fn fields_come_in_a_fixed_order() {
    let frames = vec![
        Id3Frame {
            id: "TMCL".to_string(),
            content: Id3Content::People(vec![Person {
                involvement: "sax".to_string(),
                involvee: "J. C.".to_string(),
            }]),
        },
        Id3Frame { id: "TALB".to_string(), content: Id3Content::Text("Album".to_string()) },
        Id3Frame { id: "TALB".to_string(), content: Id3Content::Text("Second".to_string()) },
        Id3Frame { id: "PRIV".to_string(), content: Id3Content::Other },
    ];
    let numbers = TagNumbers {
        track: None,
        total_tracks: None,
        disc: Some(4_294_967_295),
        total_discs: None,
        date: None,
        year: Some(-2_147_483_648),
    };
    let got: Vec<(String, String)> =
        vorbis_fields(&frames, &numbers).into_iter().map(|f| (f.name, f.value)).collect();
    let want: Vec<(String, String)> = [
        ("ALBUM", "Album"),
        ("DISCNUMBER", "4294967295"),
        ("DATE", "-2147483648"),
        ("PERFORMER", "J. C. (sax)"),
    ]
    .iter()
    .map(|(a, b)| (a.to_string(), b.to_string()))
    .collect();
    assert_eq!(got, want);
}

#[test]
fn texts_are_split_and_numbers_written() {
    assert_eq!(split_values("a\0\0bc\0"), ["a", "bc"]);
    assert!(split_values("").is_empty());
    assert!(split_values("\0").is_empty());
    assert_eq!(split_values("\u{e9}"), ["\u{e9}"]);
    assert_eq!(to_decimal(0), "0");
    assert_eq!(to_decimal(u64::MAX), "18446744073709551615");
    assert_eq!(to_decimal_signed(-10), "-10");
    assert!(eq_ignore_ascii_case("DJ-Mix", "dj-mIX"));
    assert!(!eq_ignore_ascii_case("\u{c9}", "\u{e9}"));
}
