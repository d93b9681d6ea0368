//! What an ID3 tag holds, as plain values.
//!
//! The `id3` crate owns the tag. Its frames are read out of it once, into a list
//! of this library's own frames; everything else works on that list.
use vstd::prelude::*;
use id3::TagLike;
use crate::text::{
    decimal, digits_value, is_digit, law_decimal_plain, law_decimal_read_back, without_plus,
};

verus! {

/// Which cover a picture shows.
#[derive(Copy, Clone, PartialEq, Eq, Debug, Structural)]
pub enum CoverKind {
    Front,
    Back,
    /// Not a cover
    Neither,
}

/// A person and what they did.
pub struct Person {
    pub involvement: String,
    pub involvee: String,
}

/// A picture in a tag.
pub struct Id3Picture {
    pub kind: CoverKind,
    pub description: String,
    pub data: Vec<u8>,
}

/// What a frame holds.
pub enum Id3Content {
    Text(String),
    Link(String),
    /// The text of a comment
    Comment(String),
    /// The text of lyrics
    Lyrics(String),
    /// A description and a value
    ExtendedText(String, String),
    People(Vec<Person>),
    /// An owner and an identifier
    FileIdentifier(String, Vec<u8>),
    Picture(Id3Picture),
    /// Anything else
    Other,
}

/// A frame of a tag.
pub struct Id3Frame {
    pub id: String,
    pub content: Id3Content,
}

/// The numbers and the date that a tag gives.
pub struct TagNumbers {
    pub track: Option<u32>,
    pub total_tracks: Option<u32>,
    pub disc: Option<u32>,
    pub total_discs: Option<u32>,
    pub date: Option<String>,
    pub year: Option<i32>,
}

/// What a frame holds, mathematically.
#[verifier::ext_equal]
pub enum ContentModel {
    Text(Seq<char>),
    Link(Seq<char>),
    Comment(Seq<char>),
    Lyrics(Seq<char>),
    ExtendedText(Seq<char>, Seq<char>),
    People(Seq<(Seq<char>, Seq<char>)>),
    FileIdentifier(Seq<char>, Seq<u8>),
    Picture(CoverKind, Seq<char>, Seq<u8>),
    Other,
}

/// A frame, mathematically.
#[verifier::ext_equal]
pub struct FrameModel {
    pub id: Seq<char>,
    pub content: ContentModel,
}

/// The numbers and the date of a tag, mathematically.
#[verifier::ext_equal]
pub struct NumbersModel {
    pub track: Option<u32>,
    pub total_tracks: Option<u32>,
    pub disc: Option<u32>,
    pub total_discs: Option<u32>,
    pub date: Option<Seq<char>>,
    pub year: Option<i32>,
}

/// What an optional string says.
pub open spec fn text_view(o: Option<String>) -> Option<Seq<char>> {
    match o {
        Some(s) => Some(s@),
        None => None,
    }
}

/// What a list of people says: involvement and involvee of each.
pub open spec fn people_view(v: Seq<Person>) -> Seq<(Seq<char>, Seq<char>)> {
    Seq::new(v.len(), |i: int| (v[i].involvement@, v[i].involvee@))
}

impl View for Id3Content {
    type V = ContentModel;

    open spec fn view(&self) -> ContentModel {
        match *self {
            Id3Content::Text(s) => ContentModel::Text(s@),
            Id3Content::Link(s) => ContentModel::Link(s@),
            Id3Content::Comment(s) => ContentModel::Comment(s@),
            Id3Content::Lyrics(s) => ContentModel::Lyrics(s@),
            Id3Content::ExtendedText(d, v) => ContentModel::ExtendedText(d@, v@),
            Id3Content::People(v) => ContentModel::People(people_view(v@)),
            Id3Content::FileIdentifier(o, b) => ContentModel::FileIdentifier(o@, b@),
            Id3Content::Picture(p) => ContentModel::Picture(p.kind, p.description@, p.data@),
            Id3Content::Other => ContentModel::Other,
        }
    }
}

impl View for Id3Frame {
    type V = FrameModel;

    open spec fn view(&self) -> FrameModel {
        FrameModel { id: self.id@, content: self.content@ }
    }
}

impl View for TagNumbers {
    type V = NumbersModel;

    open spec fn view(&self) -> NumbersModel {
        NumbersModel {
            track: self.track,
            total_tracks: self.total_tracks,
            disc: self.disc,
            total_discs: self.total_discs,
            date: text_view(self.date),
            year: self.year,
        }
    }
}

/// What a list of frames says.
pub open spec fn frame_views(v: Seq<Id3Frame>) -> Seq<FrameModel> {
    Seq::new(v.len(), |i: int| v[i]@)
}

/// The content of the first frame with the identifier `id`.
pub open spec fn first_content(frames: Seq<FrameModel>, id: Seq<char>) -> Option<ContentModel>
    decreases frames.len(),
{
    if frames.len() == 0 {
        None
    } else {
        match first_content(frames.drop_last(), id) {
            Some(c) => Some(c),
            None => if frames.last().id == id {
                Some(frames.last().content)
            } else {
                None
            },
        }
    }
}

/// The text of the first frame with the identifier `id`, if it is a text.
pub open spec fn text_of(frames: Seq<FrameModel>, id: Seq<char>) -> Option<Seq<char>> {
    match first_content(frames, id) {
        Some(ContentModel::Text(t)) => Some(t),
        _ => None,
    }
}

/// The number that a text stands for: digits, with or without a plus sign.
pub open spec fn unsigned_value(s: Seq<char>) -> Option<u32> {
    match digits_value(without_plus(s)) {
        Some(v) => if v <= u32::MAX {
            Some(v as u32)
        } else {
            None
        },
        None => None,
    }
}

/// The number that a text stands for: digits, with or without a sign.
pub open spec fn signed_value(s: Seq<char>) -> Option<i32> {
    let negative = s.len() > 0 && s[0] == '-';
    let digits = if s.len() > 0 && (s[0] == '+' || s[0] == '-') {
        s.skip(1)
    } else {
        s
    };
    match digits_value(digits) {
        Some(v) => if negative && v <= 0x8000_0000 {
            Some((-(v as int)) as i32)
        } else if !negative && v < 0x8000_0000 {
            Some(v as i32)
        } else {
            None
        },
        None => None,
    }
}

/// The position of the first NUL or slash in a text, or its length.
pub open spec fn separator(s: Seq<char>) -> nat
    decreases s.len(),
{
    if s.len() == 0 || s[0] == '\0' || s[0] == '/' {
        0
    } else {
        1 + separator(s.skip(1))
    }
}

/// The first number of a text such as `3/12`.
pub open spec fn pair_first(text: Option<Seq<char>>) -> Option<u32> {
    match text {
        Some(t) => unsigned_value(t.take(separator(t) as int)),
        None => None,
    }
}

/// The second number of a text such as `3/12`. There is none without the first.
pub open spec fn pair_second(text: Option<Seq<char>>) -> Option<u32> {
    match text {
        Some(t) => if pair_first(text) is Some && separator(t) < t.len() {
            unsigned_value(t.skip(separator(t) as int + 1))
        } else {
            None
        },
        None => None,
    }
}

/// A text without the zeros it begins with.
pub open spec fn without_zeros(s: Seq<char>) -> Seq<char>
    decreases s.len(),
{
    if s.len() > 0 && s[0] == '0' {
        without_zeros(s.skip(1))
    } else {
        s
    }
}

/// `id3::Tag`: a list of frames.
#[verifier::external_type_specification]
#[verifier::external_body]
pub struct ExTag(id3::Tag);

/// The frames of a tag, in order.
pub uninterp spec fn tag_frames(tag: id3::Tag) -> Seq<FrameModel>;

/// The text that `id3::Timestamp` displays for the time stamp it reads in a text;
/// none if it reads none.
pub uninterp spec fn date_text(text: Seq<char>) -> Option<Seq<char>>;

/// The identifiers of a tag's frames, by `id3::Frame::id`.
#[verifier::external_body]
fn frame_ids(tag: &id3::Tag) -> (r: Vec<String>)
    ensures
        r@.len() == tag_frames(*tag).len(),
        forall|i: int| 0 <= i < r@.len() ==> (#[trigger] r@[i])@ == tag_frames(*tag)[i].id,
{
    tag.frames().map(|f| f.id().to_owned()).collect()
}

/// The texts of those of a tag's frames that hold one, by `id3::Content::text`.
#[verifier::external_body]
fn frame_texts(tag: &id3::Tag) -> (r: Vec<Option<String>>)
    ensures
        r@.len() == tag_frames(*tag).len(),
        forall|i: int|
            0 <= i < r@.len() ==> text_view(#[trigger] r@[i]) == match tag_frames(*tag)[i].content {
                ContentModel::Text(t) => Some(t),
                _ => None,
            },
{
    tag.frames().map(|f| f.content().text().map(str::to_owned)).collect()
}

/// The links of those of a tag's frames that hold one, by `id3::Content::link`.
#[verifier::external_body]
fn frame_links(tag: &id3::Tag) -> (r: Vec<Option<String>>)
    ensures
        r@.len() == tag_frames(*tag).len(),
        forall|i: int|
            0 <= i < r@.len() ==> text_view(#[trigger] r@[i]) == match tag_frames(*tag)[i].content {
                ContentModel::Link(t) => Some(t),
                _ => None,
            },
{
    tag.frames().map(|f| f.content().link().map(str::to_owned)).collect()
}

/// The texts of those of a tag's frames that hold a comment, by
/// `id3::Content::comment`.
#[verifier::external_body]
fn frame_comments(tag: &id3::Tag) -> (r: Vec<Option<String>>)
    ensures
        r@.len() == tag_frames(*tag).len(),
        forall|i: int|
            0 <= i < r@.len() ==> text_view(#[trigger] r@[i]) == match tag_frames(*tag)[i].content {
                ContentModel::Comment(t) => Some(t),
                _ => None,
            },
{
    tag.frames().map(|f| f.content().comment().map(|c| c.text.clone())).collect()
}

/// The texts of those of a tag's frames that hold lyrics, by
/// `id3::Content::lyrics`.
#[verifier::external_body]
fn frame_lyrics(tag: &id3::Tag) -> (r: Vec<Option<String>>)
    ensures
        r@.len() == tag_frames(*tag).len(),
        forall|i: int|
            0 <= i < r@.len() ==> text_view(#[trigger] r@[i]) == match tag_frames(*tag)[i].content {
                ContentModel::Lyrics(t) => Some(t),
                _ => None,
            },
{
    tag.frames().map(|f| f.content().lyrics().map(|l| l.text.clone())).collect()
}

/// Description and value of those of a tag's frames that hold an extended text,
/// by `id3::Content::extended_text`.
#[verifier::external_body]
fn frame_extended_texts(tag: &id3::Tag) -> (r: Vec<Option<(String, String)>>)
    ensures
        r@.len() == tag_frames(*tag).len(),
        forall|i: int|
            0 <= i < r@.len() ==> match #[trigger] r@[i] {
                Some(e) => tag_frames(*tag)[i].content == ContentModel::ExtendedText(e.0@, e.1@),
                None => !(tag_frames(*tag)[i].content is ExtendedText),
            },
{
    tag.frames()
        .map(|f| f.content().extended_text().map(|e| (e.description.clone(), e.value.clone())))
        .collect()
}

/// The people in those of a tag's frames that list them, by
/// `id3::Content::involved_people_list`.
#[verifier::external_body]
fn frame_people(tag: &id3::Tag) -> (r: Vec<Option<Vec<Person>>>)
    ensures
        r@.len() == tag_frames(*tag).len(),
        forall|i: int|
            0 <= i < r@.len() ==> match #[trigger] r@[i] {
                Some(p) => tag_frames(*tag)[i].content == ContentModel::People(people_view(p@)),
                None => !(tag_frames(*tag)[i].content is People),
            },
{
    tag.frames()
        .map(|f| f.content().involved_people_list().map(|l| l.items.iter().map(|p| Person {
            involvement: p.involvement.clone(),
            involvee: p.involvee.clone(),
        }).collect()))
        .collect()
}

/// Owner and identifier of those of a tag's frames that identify the file, by
/// `id3::Content::unique_file_identifier`.
#[verifier::external_body]
fn frame_file_identifiers(tag: &id3::Tag) -> (r: Vec<Option<(String, Vec<u8>)>>)
    ensures
        r@.len() == tag_frames(*tag).len(),
        forall|i: int|
            0 <= i < r@.len() ==> match #[trigger] r@[i] {
                Some(u) => tag_frames(*tag)[i].content == ContentModel::FileIdentifier(u.0@, u.1@),
                None => !(tag_frames(*tag)[i].content is FileIdentifier),
            },
{
    tag.frames()
        .map(|f| f.content().unique_file_identifier().map(|u| (
            u.owner_identifier.clone(),
            u.identifier.clone(),
        )))
        .collect()
}

/// The pictures in those of a tag's frames that hold one, by
/// `id3::Content::picture`.
#[verifier::external_body]
fn frame_pictures(tag: &id3::Tag) -> (r: Vec<Option<Id3Picture>>)
    ensures
        r@.len() == tag_frames(*tag).len(),
        forall|i: int|
            0 <= i < r@.len() ==> match #[trigger] r@[i] {
                Some(p) => tag_frames(*tag)[i].content == ContentModel::Picture(
                    p.kind,
                    p.description@,
                    p.data@,
                ),
                None => !(tag_frames(*tag)[i].content is Picture),
            },
{
    tag.frames()
        .map(|f| f.content().picture().map(|p| Id3Picture {
            kind: match p.picture_type {
                id3::frame::PictureType::CoverFront => CoverKind::Front,
                id3::frame::PictureType::CoverBack => CoverKind::Back,
                _ => CoverKind::Neither,
            },
            description: p.description.clone(),
            data: p.data.clone(),
        }))
        .collect()
}

/// `id3::TagLike::track`: the first number of the first TRCK frame.
#[verifier::external_body]
fn tag_track(tag: &id3::Tag) -> (r: Option<u32>)
    ensures
        r == pair_first(text_of(tag_frames(*tag), "TRCK"@)),
{
    tag.track()
}

/// `id3::TagLike::total_tracks`: the second number of the first TRCK frame.
#[verifier::external_body]
fn tag_total_tracks(tag: &id3::Tag) -> (r: Option<u32>)
    ensures
        r == pair_second(text_of(tag_frames(*tag), "TRCK"@)),
{
    tag.total_tracks()
}

/// `id3::TagLike::disc`: the first number of the first TPOS frame.
#[verifier::external_body]
fn tag_disc(tag: &id3::Tag) -> (r: Option<u32>)
    ensures
        r == pair_first(text_of(tag_frames(*tag), "TPOS"@)),
{
    tag.disc()
}

/// `id3::TagLike::total_discs`: the second number of the first TPOS frame.
#[verifier::external_body]
fn tag_total_discs(tag: &id3::Tag) -> (r: Option<u32>)
    ensures
        r == pair_second(text_of(tag_frames(*tag), "TPOS"@)),
{
    tag.total_discs()
}

/// `id3::TagLike::date_recorded`, and how the time stamp is displayed: a function
/// of the text of the first TDRC frame.
#[verifier::external_body]
fn tag_date_recorded(tag: &id3::Tag) -> (r: Option<String>)
    ensures
        text_view(r) == match text_of(tag_frames(*tag), "TDRC"@) {
            Some(t) => date_text(t),
            None => None,
        },
{
    tag.date_recorded().map(|d| d.to_string())
}

/// `id3::TagLike::year`: the number in the first TYER frame, read without the
/// zeros it begins with.
#[verifier::external_body]
fn tag_year(tag: &id3::Tag) -> (r: Option<i32>)
    ensures
        r == match text_of(tag_frames(*tag), "TYER"@) {
            Some(t) => signed_value(without_zeros(t)),
            None => None,
        },
{
    tag.year()
}

/// The numbers and the date that the frames of a tag give.
pub open spec fn numbers_of(frames: Seq<FrameModel>) -> NumbersModel {
    NumbersModel {
        track: pair_first(text_of(frames, "TRCK"@)),
        total_tracks: pair_second(text_of(frames, "TRCK"@)),
        disc: pair_first(text_of(frames, "TPOS"@)),
        total_discs: pair_second(text_of(frames, "TPOS"@)),
        date: match text_of(frames, "TDRC"@) {
            Some(t) => date_text(t),
            None => None,
        },
        year: match text_of(frames, "TYER"@) {
            Some(t) => signed_value(without_zeros(t)),
            None => None,
        },
    }
}

/// Reads the numbers and the date out of a tag.
pub fn read_numbers(tag: &id3::Tag) -> (r: TagNumbers)
    ensures
        r@ == numbers_of(tag_frames(*tag)),
{
    TagNumbers {
        track: tag_track(tag),
        total_tracks: tag_total_tracks(tag),
        disc: tag_disc(tag),
        total_discs: tag_total_discs(tag),
        date: tag_date_recorded(tag),
        year: tag_year(tag),
    }
}

/// Reads the frames out of a tag.
pub fn read_frames(tag: &id3::Tag) -> (r: Vec<Id3Frame>)
    ensures
        frame_views(r@) == tag_frames(*tag),
{
    let ids: Vec<String> = frame_ids(tag);
    let mut texts: Vec<Option<String>> = frame_texts(tag);
    let mut links: Vec<Option<String>> = frame_links(tag);
    let mut comments: Vec<Option<String>> = frame_comments(tag);
    let mut lyrics: Vec<Option<String>> = frame_lyrics(tag);
    let mut extended: Vec<Option<(String, String)>> = frame_extended_texts(tag);
    let mut people: Vec<Option<Vec<Person>>> = frame_people(tag);
    let mut files: Vec<Option<(String, Vec<u8>)>> = frame_file_identifiers(tag);
    let mut pictures: Vec<Option<Id3Picture>> = frame_pictures(tag);
    let ghost (t0, l0, c0, y0) = (texts@, links@, comments@, lyrics@);
    let ghost (e0, p0, f0, i0) = (extended@, people@, files@, pictures@);
    let ghost all = tag_frames(*tag);
    let n: usize = ids.len();
    let mut r: Vec<Id3Frame> = Vec::new();
    let mut k: usize = 0;
    while k < n
        invariant
            k <= n,
            n == all.len(),
            n == ids@.len(),
            n == texts@.len() == links@.len() == comments@.len() == lyrics@.len(),
            n == extended@.len() == people@.len() == files@.len() == pictures@.len(),
            n == t0.len() == l0.len() == c0.len() == y0.len(),
            n == e0.len() == p0.len() == f0.len() == i0.len(),
            forall|i: int| 0 <= i < n ==> (#[trigger] ids@[i])@ == all[i].id,
            forall|i: int| k <= i < n ==> #[trigger] texts@[i] == t0[i],
            forall|i: int| k <= i < n ==> #[trigger] links@[i] == l0[i],
            forall|i: int| k <= i < n ==> #[trigger] comments@[i] == c0[i],
            forall|i: int| k <= i < n ==> #[trigger] lyrics@[i] == y0[i],
            forall|i: int| k <= i < n ==> #[trigger] extended@[i] == e0[i],
            forall|i: int| k <= i < n ==> #[trigger] people@[i] == p0[i],
            forall|i: int| k <= i < n ==> #[trigger] files@[i] == f0[i],
            forall|i: int| k <= i < n ==> #[trigger] pictures@[i] == i0[i],
            forall|i: int|
                0 <= i < n ==> text_view(#[trigger] t0[i]) == match all[i].content {
                    ContentModel::Text(t) => Some(t),
                    _ => None,
                },
            forall|i: int|
                0 <= i < n ==> text_view(#[trigger] l0[i]) == match all[i].content {
                    ContentModel::Link(t) => Some(t),
                    _ => None,
                },
            forall|i: int|
                0 <= i < n ==> text_view(#[trigger] c0[i]) == match all[i].content {
                    ContentModel::Comment(t) => Some(t),
                    _ => None,
                },
            forall|i: int|
                0 <= i < n ==> text_view(#[trigger] y0[i]) == match all[i].content {
                    ContentModel::Lyrics(t) => Some(t),
                    _ => None,
                },
            forall|i: int|
                0 <= i < n ==> match #[trigger] e0[i] {
                    Some(e) => all[i].content == ContentModel::ExtendedText(e.0@, e.1@),
                    None => !(all[i].content is ExtendedText),
                },
            forall|i: int|
                0 <= i < n ==> match #[trigger] p0[i] {
                    Some(p) => all[i].content == ContentModel::People(people_view(p@)),
                    None => !(all[i].content is People),
                },
            forall|i: int|
                0 <= i < n ==> match #[trigger] f0[i] {
                    Some(u) => all[i].content == ContentModel::FileIdentifier(u.0@, u.1@),
                    None => !(all[i].content is FileIdentifier),
                },
            forall|i: int|
                0 <= i < n ==> match #[trigger] i0[i] {
                    Some(p) => all[i].content == ContentModel::Picture(
                        p.kind,
                        p.description@,
                        p.data@,
                    ),
                    None => !(all[i].content is Picture),
                },
            frame_views(r@) == all.take(k as int),
        decreases n - k,
    {
        let ghost before = r@;
        assert(texts@[k as int] == t0[k as int]);
        assert(links@[k as int] == l0[k as int]);
        assert(comments@[k as int] == c0[k as int]);
        assert(lyrics@[k as int] == y0[k as int]);
        assert(extended@[k as int] == e0[k as int]);
        assert(people@[k as int] == p0[k as int]);
        assert(files@[k as int] == f0[k as int]);
        assert(pictures@[k as int] == i0[k as int]);
        let content: Id3Content = if let Some(t) = texts[k].take() {
            Id3Content::Text(t)
        } else if let Some(t) = links[k].take() {
            Id3Content::Link(t)
        } else if let Some(t) = comments[k].take() {
            Id3Content::Comment(t)
        } else if let Some(t) = lyrics[k].take() {
            Id3Content::Lyrics(t)
        } else if let Some(e) = extended[k].take() {
            Id3Content::ExtendedText(e.0, e.1)
        } else if let Some(p) = people[k].take() {
            Id3Content::People(p)
        } else if let Some(u) = files[k].take() {
            Id3Content::FileIdentifier(u.0, u.1)
        } else if let Some(p) = pictures[k].take() {
            Id3Content::Picture(p)
        } else {
            Id3Content::Other
        };
        assert(content@ == all[k as int].content);
        let frame = Id3Frame { id: ids[k].clone(), content };
        assert(frame@ == all[k as int]);
        r.push(frame);
        k = k + 1;
        assert(frame_views(r@) =~= frame_views(before).push(frame@));
        assert(all.take(k as int) =~= all.take(k - 1).push(all[k - 1]));
    }
    assert(all.take(n as int) =~= all);
    r
}

/// The first frame with an identifier is the one that has it while none before it has.
pub proof fn law_first_frame(frames: Seq<FrameModel>, id: Seq<char>, i: int)
    requires
        0 <= i < frames.len(),
        frames[i].id == id,
        forall|j: int| 0 <= j < i ==> (#[trigger] frames[j]).id != id,
    ensures
        first_content(frames, id) == Some(frames[i].content),
    decreases frames.len(),
{
    let rest = frames.drop_last();
    assert forall|j: int| 0 <= j < rest.len() && j < i implies (#[trigger] rest[j]).id != id by {
        assert(rest[j] == frames[j]);
    }
    if i < rest.len() {
        assert(rest[i] == frames[i]);
        law_first_frame(rest, id, i);
    } else {
        law_no_frame(rest, id);
    }
}

/// Where no frame has an identifier, there is no first frame with it.
pub proof fn law_no_frame(frames: Seq<FrameModel>, id: Seq<char>)
    requires
        forall|j: int| 0 <= j < frames.len() ==> (#[trigger] frames[j]).id != id,
    ensures
        first_content(frames, id) is None,
    decreases frames.len(),
{
    if frames.len() > 0 {
        let rest = frames.drop_last();
        assert forall|j: int| 0 <= j < rest.len() implies (#[trigger] rest[j]).id != id by {
            assert(rest[j] == frames[j]);
        }
        law_no_frame(rest, id);
        assert(frames[frames.len() - 1].id != id);
    }
}

/// A number in decimal is read as that number.
proof fn lemma_decimal_number(n: u32)
    ensures
        unsigned_value(decimal(n as nat)) == Some(n),
        0 < n < 0x8000_0000 ==> signed_value(without_zeros(decimal(n as nat))) == Some(n as i32),
{
    let d = decimal(n as nat);
    law_decimal_read_back(n as nat);
    assert(is_digit(d[0]));
    law_decimal_plain(n as int);
}

/// Digits have no separator among them.
proof fn lemma_separator(d: Seq<char>, rest: Seq<char>)
    requires
        forall|i: int| 0 <= i < d.len() ==> is_digit(#[trigger] d[i]),
        rest.len() == 0 || rest[0] == '/' || rest[0] == '\0',
    ensures
        separator(d + rest) == d.len(),
    decreases d.len(),
{
    if d.len() > 0 {
        let t = d.skip(1);
        assert(is_digit(d[0]));
        assert forall|i: int| 0 <= i < t.len() implies is_digit(#[trigger] t[i]) by {
            assert(t[i] == d[i + 1]);
        }
        lemma_separator(t, rest);
        assert((d + rest).skip(1) =~= t + rest);
    } else {
        assert(d + rest =~= rest);
    }
}

/// Two numbers with a slash or a NUL character between them are read as these two
/// numbers, and a number alone as the first of them without a second.
pub proof fn law_pair_read_back(a: u32, b: u32, slash: char)
    requires
        slash == '/' || slash == '\0',
    ensures
        pair_first(Some(decimal(a as nat) + seq![slash] + decimal(b as nat))) == Some(a),
        pair_second(Some(decimal(a as nat) + seq![slash] + decimal(b as nat))) == Some(b),
        pair_first(Some(decimal(a as nat))) == Some(a),
        pair_second(Some(decimal(a as nat))) is None,
{
    let (x, y) = (decimal(a as nat), decimal(b as nat));
    law_decimal_read_back(a as nat);
    lemma_decimal_number(a);
    lemma_decimal_number(b);
    let rest = seq![slash] + y;
    let t = x + seq![slash] + y;
    assert(t =~= x + rest);
    lemma_separator(x, rest);
    assert(t.take(x.len() as int) =~= x);
    assert(t.skip(x.len() as int + 1) =~= y);
    lemma_separator(x, Seq::empty());
    assert(x + Seq::<char>::empty() =~= x);
    assert(x.take(x.len() as int) =~= x);
}

/// The numbers of a tag: the track and the number of tracks stand in the first TRCK
/// frame with a slash between them, the disc and the number of discs in the first
/// TPOS frame, the year in the first TYER frame, and the date is the time stamp in
/// the first TDRC frame. What has no frame is not there.
pub proof fn law_numbers_of_frames(frames: Seq<FrameModel>, a: u32, b: u32)
    ensures
        text_of(frames, "TRCK"@) == Some(decimal(a as nat) + seq!['/'] + decimal(b as nat))
            ==> numbers_of(frames).track == Some(a) && numbers_of(frames).total_tracks == Some(b),
        text_of(frames, "TRCK"@) == Some(decimal(a as nat)) ==> numbers_of(frames).track == Some(a)
            && numbers_of(frames).total_tracks is None,
        text_of(frames, "TRCK"@) is None ==> numbers_of(frames).track is None && numbers_of(
            frames,
        ).total_tracks is None,
        text_of(frames, "TPOS"@) == Some(decimal(a as nat) + seq!['/'] + decimal(b as nat))
            ==> numbers_of(frames).disc == Some(a) && numbers_of(frames).total_discs == Some(b),
        text_of(frames, "TPOS"@) == Some(decimal(a as nat)) ==> numbers_of(frames).disc == Some(a)
            && numbers_of(frames).total_discs is None,
        text_of(frames, "TPOS"@) is None ==> numbers_of(frames).disc is None && numbers_of(
            frames,
        ).total_discs is None,
        text_of(frames, "TYER"@) == Some(decimal(a as nat)) && 0 < a < 0x8000_0000 ==> numbers_of(
            frames,
        ).year == Some(a as i32),
        text_of(frames, "TYER"@) is None ==> numbers_of(frames).year is None,
        text_of(frames, "TDRC"@) matches Some(t) ==> numbers_of(frames).date == date_text(t),
        text_of(frames, "TDRC"@) is None ==> numbers_of(frames).date is None,
{
    law_pair_read_back(a, b, '/');
    lemma_decimal_number(a);
}

/// A number may have a plus sign, and a year a minus sign.
pub proof fn law_signs(n: u32)
    ensures
        unsigned_value(seq!['+'] + decimal(n as nat)) == Some(n),
        n < 0x8000_0000 ==> signed_value(seq!['+'] + decimal(n as nat)) == Some(n as i32),
        n <= 0x8000_0000 ==> (signed_value(seq!['-'] + decimal(n as nat)) matches Some(v) && v
            == -(n as int)),
        unsigned_value(seq!['-'] + decimal(n as nat)) is None,
{
    let d = decimal(n as nat);
    lemma_decimal_number(n);
    law_decimal_read_back(n as nat);
    assert((seq!['+'] + d).skip(1) =~= d);
    assert((seq!['-'] + d).skip(1) =~= d);
    assert(!is_digit((seq!['-'] + d)[0]));
}

} // verus!
