//! The fields of the Vorbis comment for an ID3 tag, by the mapping that
//! MusicBrainz Picard uses.
use vstd::prelude::*;
use crate::id3_frames::{
    first_content, frame_views, people_view, text_of, ContentModel, FrameModel, Id3Content,
    Id3Frame, NumbersModel, Person, TagNumbers,
};
use crate::text::{
    decimal, decimal_signed, eq_ignore_ascii_case, same_but_for_case, same_text, split_values,
    text_views, to_decimal, to_decimal_signed, values_of,
};

verus! {

/// A field of a Vorbis comment.
pub struct VorbisField {
    pub name: String,
    pub value: String,
}

/// What a list of fields says: name and value of each.
pub open spec fn field_views(v: Seq<VorbisField>) -> Seq<(Seq<char>, Seq<char>)> {
    Seq::new(v.len(), |i: int| (v[i].name@, v[i].value@))
}

/// What a table says.
pub open spec fn table_views(v: Seq<(&str, &str)>) -> Seq<(Seq<char>, Seq<char>)> {
    Seq::new(v.len(), |i: int| (v[i].0@, v[i].1@))
}

/// The text frames that become one field each, under another name.
pub open spec fn id3_vorbis_map() -> Seq<(Seq<char>, Seq<char>)> {
    seq![
        ("TPE1"@, "ARTIST"@),
        ("TPE2"@, "ALBUMARTIST"@),
        ("TSO2"@, "ALBUMARTISTSORT"@),
        ("TSOA"@, "ALBUMSORT"@),
        ("TSOP"@, "ARTISTSORT"@),
        ("TSOT"@, "TITLESORT"@),
        ("TIT2"@, "TITLE"@),
        ("TALB"@, "ALBUM"@),
        ("TCOM"@, "COMPOSER"@),
        ("TCOP"@, "COPYRIGHT"@),
        ("TCON"@, "GENRE"@),
        ("TIT1"@, "GROUPING"@),
        ("TSRC"@, "ISRC"@),
        ("TPUB"@, "LABEL"@),
        ("TEXT"@, "LYRICIST"@),
        ("TSSE"@, "ENCODER"@),
        ("TENC"@, "ENCODER"@),
        ("TPE3"@, "CONDUCTOR"@),
        ("TPE4"@, "REMIXER"@),
        ("TMOO"@, "MOOD"@),
        ("TKEY"@, "KEY"@),
        ("TLAN"@, "LANGUAGE"@),
        ("TMED"@, "MEDIA"@),
        ("TOFN"@, "ORIGINALFILENAME"@),
        ("TDRL"@, "RELEASEDATE"@),
    ]
}

/// The roles of involved people, and the fields they become.
pub open spec fn id3_tipl_vorbis_map() -> Seq<(Seq<char>, Seq<char>)> {
    seq![
        ("arranger"@, "ARRANGER"@),
        ("engineer"@, "ENGINEER"@),
        ("dj-mix"@, "DJMIXER"@),
        ("mix"@, "MIXER"@),
        ("producer"@, "PRODUCER"@),
    ]
}

/// The descriptions of extended texts that have a field of their own.
pub open spec fn id3_txxx_vorbis_map() -> Seq<(Seq<char>, Seq<char>)> {
    seq![
        ("REPLAYGAIN_TRACK_GAIN"@, "REPLAYGAIN_TRACK_GAIN"@),
        ("REPLAYGAIN_ALBUM_GAIN"@, "REPLAYGAIN_ALBUM_GAIN"@),
        ("REPLAYGAIN_TRACK_PEAK"@, "REPLAYGAIN_TRACK_PEAK"@),
        ("REPLAYGAIN_ALBUM_PEAK"@, "REPLAYGAIN_ALBUM_PEAK"@),
        ("ASIN"@, "ASIN"@),
        ("BARCODE"@, "BARCODE"@),
        ("CATALOGNUMBER"@, "CATALOGNUMBER"@),
    ]
}

/// The text frames that become one field each, under another name.
fn id3_vorbis_table() -> (r: Vec<(&'static str, &'static str)>)
    ensures
        table_views(r@) == id3_vorbis_map(),
{
    let r: Vec<(&'static str, &'static str)> = vec![
        ("TPE1", "ARTIST"),
        ("TPE2", "ALBUMARTIST"),
        ("TSO2", "ALBUMARTISTSORT"),
        ("TSOA", "ALBUMSORT"),
        ("TSOP", "ARTISTSORT"),
        ("TSOT", "TITLESORT"),
        ("TIT2", "TITLE"),
        ("TALB", "ALBUM"),
        ("TCOM", "COMPOSER"),
        ("TCOP", "COPYRIGHT"),
        ("TCON", "GENRE"),
        ("TIT1", "GROUPING"),
        ("TSRC", "ISRC"),
        ("TPUB", "LABEL"),
        ("TEXT", "LYRICIST"),
        ("TSSE", "ENCODER"),
        ("TENC", "ENCODER"),
        ("TPE3", "CONDUCTOR"),
        ("TPE4", "REMIXER"),
        ("TMOO", "MOOD"),
        ("TKEY", "KEY"),
        ("TLAN", "LANGUAGE"),
        ("TMED", "MEDIA"),
        ("TOFN", "ORIGINALFILENAME"),
        ("TDRL", "RELEASEDATE"),
    ];
    assert(table_views(r@) =~= id3_vorbis_map());
    r
}

/// The roles of involved people, and the fields they become.
fn id3_tipl_vorbis_table() -> (r: Vec<(&'static str, &'static str)>)
    ensures
        table_views(r@) == id3_tipl_vorbis_map(),
{
    let r: Vec<(&'static str, &'static str)> = vec![
        ("arranger", "ARRANGER"),
        ("engineer", "ENGINEER"),
        ("dj-mix", "DJMIXER"),
        ("mix", "MIXER"),
        ("producer", "PRODUCER"),
    ];
    assert(table_views(r@) =~= id3_tipl_vorbis_map());
    r
}

/// The descriptions of extended texts that have a field of their own.
fn id3_txxx_vorbis_table() -> (r: Vec<(&'static str, &'static str)>)
    ensures
        table_views(r@) == id3_txxx_vorbis_map(),
{
    let r: Vec<(&'static str, &'static str)> = vec![
        ("REPLAYGAIN_TRACK_GAIN", "REPLAYGAIN_TRACK_GAIN"),
        ("REPLAYGAIN_ALBUM_GAIN", "REPLAYGAIN_ALBUM_GAIN"),
        ("REPLAYGAIN_TRACK_PEAK", "REPLAYGAIN_TRACK_PEAK"),
        ("REPLAYGAIN_ALBUM_PEAK", "REPLAYGAIN_ALBUM_PEAK"),
        ("ASIN", "ASIN"),
        ("BARCODE", "BARCODE"),
        ("CATALOGNUMBER", "CATALOGNUMBER"),
    ];
    assert(table_views(r@) =~= id3_txxx_vorbis_map());
    r
}

/// One field for each value in a text.
pub open spec fn value_fields(name: Seq<char>, text: Seq<char>) -> Seq<(Seq<char>, Seq<char>)> {
    Seq::new(values_of(text).len(), |i: int| (name, values_of(text)[i]))
}

/// One field, if there is a value.
pub open spec fn opt_field(name: Seq<char>, value: Option<Seq<char>>) -> Seq<
    (Seq<char>, Seq<char>),
> {
    match value {
        Some(v) => seq![(name, v)],
        None => Seq::empty(),
    }
}

/// The same value under two names, if there is one.
pub open spec fn twin_fields(a: Seq<char>, b: Seq<char>, value: Option<Seq<char>>) -> Seq<
    (Seq<char>, Seq<char>),
> {
    match value {
        Some(v) => seq![(a, v), (b, v)],
        None => Seq::empty(),
    }
}

/// An optional number in decimal.
pub open spec fn opt_decimal(n: Option<u32>) -> Option<Seq<char>> {
    match n {
        Some(n) => Some(decimal(n as nat)),
        None => None,
    }
}

/// The fields of the text frames in a table: one for each value of each frame.
pub open spec fn text_fields(
    frames: Seq<FrameModel>,
    table: Seq<(Seq<char>, Seq<char>)>,
) -> Seq<(Seq<char>, Seq<char>)>
    decreases table.len(),
{
    if table.len() == 0 {
        Seq::empty()
    } else {
        text_fields(frames, table.drop_last()) + match text_of(frames, table.last().0) {
            Some(t) => value_fields(table.last().1, t),
            None => Seq::empty(),
        }
    }
}

/// Track and disc numbers, each with its total under two names.
pub open spec fn number_fields(n: NumbersModel) -> Seq<(Seq<char>, Seq<char>)> {
    opt_field("TRACKNUMBER"@, opt_decimal(n.track)) + twin_fields(
        "TOTALTRACKS"@,
        "TRACKTOTAL"@,
        opt_decimal(n.total_tracks),
    ) + opt_field("DISCNUMBER"@, opt_decimal(n.disc)) + twin_fields(
        "TOTALDISCS"@,
        "DISCTOTAL"@,
        opt_decimal(n.total_discs),
    )
}

/// The date: the time of recording, or the year if there is none.
pub open spec fn date_value(n: NumbersModel) -> Option<Seq<char>> {
    match n.date {
        Some(d) => Some(d),
        None => match n.year {
            Some(y) => Some(decimal_signed(y as int)),
            None => None,
        },
    }
}

/// The original date: what the first TDOR frame says, or the first TORY frame if
/// there is no TDOR frame.
pub open spec fn original_date(frames: Seq<FrameModel>) -> Option<Seq<char>> {
    if first_content(frames, "TDOR"@) is Some {
        text_of(frames, "TDOR"@)
    } else {
        text_of(frames, "TORY"@)
    }
}

/// The comment in the first COMM frame.
pub open spec fn comment_value(frames: Seq<FrameModel>) -> Option<Seq<char>> {
    match first_content(frames, "COMM"@) {
        Some(ContentModel::Comment(t)) => Some(t),
        _ => None,
    }
}

/// The lyrics in the first USLT frame.
pub open spec fn lyrics_value(frames: Seq<FrameModel>) -> Option<Seq<char>> {
    match first_content(frames, "USLT"@) {
        Some(ContentModel::Lyrics(t)) => Some(t),
        _ => None,
    }
}

/// Dates, movement, comment and lyrics.
pub open spec fn single_fields(frames: Seq<FrameModel>, n: NumbersModel) -> Seq<
    (Seq<char>, Seq<char>),
> {
    opt_field("DATE"@, date_value(n)) + opt_field("ORIGINALDATE"@, original_date(frames))
        + twin_fields("MOVEMENTTOTAL"@, "MOVEMENT"@, text_of(frames, "MVIN"@)) + opt_field(
        "COMMENT"@,
        comment_value(frames),
    ) + opt_field("LYRICS"@, lyrics_value(frames))
}

/// The fields for one person: those of the roles in the table that the
/// involvement names, whatever its case.
pub open spec fn role_fields(
    person: (Seq<char>, Seq<char>),
    table: Seq<(Seq<char>, Seq<char>)>,
) -> Seq<(Seq<char>, Seq<char>)>
    decreases table.len(),
{
    if table.len() == 0 {
        Seq::empty()
    } else {
        let before = role_fields(person, table.drop_last());
        if same_but_for_case(person.0, table.last().0) {
            before.push((table.last().1, person.1))
        } else {
            before
        }
    }
}

/// The fields for a list of people.
pub open spec fn people_fields(people: Seq<(Seq<char>, Seq<char>)>) -> Seq<
    (Seq<char>, Seq<char>),
>
    decreases people.len(),
{
    if people.len() == 0 {
        Seq::empty()
    } else {
        people_fields(people.drop_last()) + role_fields(people.last(), id3_tipl_vorbis_map())
    }
}

/// The fields for the people in TIPL and IPLS frames.
pub open spec fn involved_fields(frames: Seq<FrameModel>) -> Seq<(Seq<char>, Seq<char>)>
    decreases frames.len(),
{
    if frames.len() == 0 {
        Seq::empty()
    } else {
        let f = frames.last();
        let before = involved_fields(frames.drop_last());
        match f.content {
            ContentModel::People(people) => if f.id == "TIPL"@ || f.id == "IPLS"@ {
                before + people_fields(people)
            } else {
                before
            },
            _ => before,
        }
    }
}

/// A performer: name and, in parentheses, instrument.
pub open spec fn performer_text(person: (Seq<char>, Seq<char>)) -> Seq<char> {
    person.1 + " ("@ + person.0 + ")"@
}

/// The fields for a list of performers.
pub open spec fn performer_list(people: Seq<(Seq<char>, Seq<char>)>) -> Seq<
    (Seq<char>, Seq<char>),
> {
    Seq::new(people.len(), |i: int| ("PERFORMER"@, performer_text(people[i])))
}

/// The fields for the performers in TMCL frames.
pub open spec fn performer_fields(frames: Seq<FrameModel>) -> Seq<(Seq<char>, Seq<char>)>
    decreases frames.len(),
{
    if frames.len() == 0 {
        Seq::empty()
    } else {
        let f = frames.last();
        let before = performer_fields(frames.drop_last());
        match f.content {
            ContentModel::People(people) => if f.id == "TMCL"@ {
                before + performer_list(people)
            } else {
                before
            },
            _ => before,
        }
    }
}

/// The fields for the MusicBrainz identifiers in UFID frames.
pub open spec fn file_id_fields(frames: Seq<FrameModel>) -> Seq<(Seq<char>, Seq<char>)>
    decreases frames.len(),
{
    if frames.len() == 0 {
        Seq::empty()
    } else {
        let f = frames.last();
        let before = file_id_fields(frames.drop_last());
        match f.content {
            ContentModel::FileIdentifier(owner, b) => if f.id == "UFID"@ && owner
                == "http://musicbrainz.org"@ && vstd::utf8::valid_utf8(b) {
                before.push(("MUSICBRAINZ_TRACKID"@, vstd::utf8::decode_utf8(b)))
            } else {
                before
            },
            _ => before,
        }
    }
}

/// The link in the first frame with the identifier `id`.
pub open spec fn link_of(frames: Seq<FrameModel>, id: Seq<char>) -> Option<Seq<char>> {
    match first_content(frames, id) {
        Some(ContentModel::Link(t)) => Some(t),
        _ => None,
    }
}

/// License and website.
pub open spec fn link_fields(frames: Seq<FrameModel>) -> Seq<(Seq<char>, Seq<char>)> {
    opt_field("LICENSE"@, link_of(frames, "WCOP"@)) + opt_field(
        "WEBSITE"@,
        link_of(frames, "WOAR"@),
    )
}

/// The name of the field for an extended text: that of the first description in
/// the table that is the same but for case, or else the description itself.
pub open spec fn extended_name(
    description: Seq<char>,
    table: Seq<(Seq<char>, Seq<char>)>,
) -> Seq<char>
    decreases table.len(),
{
    if table.len() == 0 {
        description
    } else if same_but_for_case(table[0].0, description) {
        table[0].1
    } else {
        extended_name(description, table.skip(1))
    }
}

/// The fields for the extended texts with a description, in whatever frame.
pub open spec fn extended_fields(frames: Seq<FrameModel>) -> Seq<(Seq<char>, Seq<char>)>
    decreases frames.len(),
{
    if frames.len() == 0 {
        Seq::empty()
    } else {
        let before = extended_fields(frames.drop_last());
        match frames.last().content {
            ContentModel::ExtendedText(d, v) => if d.len() > 0 {
                before + value_fields(extended_name(d, id3_txxx_vorbis_map()), v)
            } else {
                before
            },
            _ => before,
        }
    }
}

/// All fields of the Vorbis comment for a tag, in order.
pub open spec fn vorbis_field_list(frames: Seq<FrameModel>, n: NumbersModel) -> Seq<
    (Seq<char>, Seq<char>),
> {
    text_fields(frames, id3_vorbis_map()) + number_fields(n) + single_fields(frames, n)
        + involved_fields(frames) + performer_fields(frames) + file_id_fields(frames)
        + link_fields(frames) + extended_fields(frames)
}

/// Appends a field.
fn add_field(out: &mut Vec<VorbisField>, name: &str, value: &str)
    ensures
        field_views(final(out)@) == field_views(old(out)@).push((name@, value@)),
{
    let ghost before = out@;
    out.push(VorbisField { name: name.to_owned(), value: value.to_owned() });
    assert(field_views(out@) =~= field_views(before).push((name@, value@)));
}

/// Appends one field for each value in a text.
fn add_values(out: &mut Vec<VorbisField>, name: &str, text: &str)
    ensures
        field_views(final(out)@) == field_views(old(out)@) + value_fields(name@, text@),
{
    let ghost start = field_views(out@);
    let values: Vec<String> = split_values(text);
    let ghost all = value_fields(name@, text@);
    let mut k: usize = 0;
    assert(start + all.take(0) =~= start);
    while k < values.len()
        invariant
            k <= values@.len(),
            text_views(values@) == values_of(text@),
            all == value_fields(name@, text@),
            field_views(out@) == start + all.take(k as int),
        decreases values@.len() - k,
    {
        assert(text_views(values@)[k as int] == values@[k as int]@);
        add_field(out, name, values[k].as_str());
        k = k + 1;
        assert(field_views(out@) =~= start + all.take(k as int));
    }
    assert(values@.len() == text_views(values@).len());
    assert(all.take(values@.len() as int) =~= all);
}

/// Where the first frame with the identifier `id` is.
fn find_frame<'a>(frames: &'a Vec<Id3Frame>, id: &str) -> (r: Option<&'a Id3Content>)
    ensures
        match r {
            Some(c) => first_content(frame_views(frames@), id@) == Some(c@),
            None => first_content(frame_views(frames@), id@) is None,
        },
{
    let ghost all = frame_views(frames@);
    let mut k: usize = 0;
    while k < frames.len()
        invariant
            k <= frames@.len(),
            all == frame_views(frames@),
            first_content(all.take(k as int), id@) is None,
        decreases frames@.len() - k,
    {
        proof {
            assert(all.take(k + 1).drop_last() =~= all.take(k as int));
            assert(all.take(k + 1).last() == frames@[k as int]@);
        }
        if same_text(frames[k].id.as_str(), id) {
            proof {
                lemma_first_stays(all, id@, k + 1);
            }
            return Some(&frames[k].content);
        }
        k = k + 1;
    }
    assert(all.take(frames@.len() as int) =~= all);
    None
}

/// The first frame among some is the first among more.
proof fn lemma_first_stays(frames: Seq<FrameModel>, id: Seq<char>, k: int)
    requires
        0 <= k <= frames.len(),
        first_content(frames.take(k), id) is Some,
    ensures
        first_content(frames, id) == first_content(frames.take(k), id),
    decreases frames.len(),
{
    if k == frames.len() {
        assert(frames.take(k) =~= frames);
    } else {
        assert(frames.drop_last().take(k) =~= frames.take(k));
        lemma_first_stays(frames.drop_last(), id, k);
    }
}

/// The text of the first frame with the identifier `id`, if it is a text.
fn find_text<'a>(frames: &'a Vec<Id3Frame>, id: &str) -> (r: Option<&'a String>)
    ensures
        match r {
            Some(t) => text_of(frame_views(frames@), id@) == Some(t@),
            None => text_of(frame_views(frames@), id@) is None,
        },
{
    match find_frame(frames, id) {
        Some(Id3Content::Text(t)) => Some(t),
        _ => None,
    }
}

/// Appends the fields of the text frames that have one.
fn add_text_fields(out: &mut Vec<VorbisField>, frames: &Vec<Id3Frame>)
    ensures
        field_views(final(out)@) == field_views(old(out)@) + text_fields(
            frame_views(frames@),
            id3_vorbis_map(),
        ),
{
    let ghost start = field_views(out@);
    let ghost all = frame_views(frames@);
    let table: Vec<(&'static str, &'static str)> = id3_vorbis_table();
    let ghost map = id3_vorbis_map();
    let mut k: usize = 0;
    assert(start + text_fields(all, map.take(0)) =~= start);
    while k < table.len()
        invariant
            k <= table@.len(),
            map == table_views(table@),
            all == frame_views(frames@),
            field_views(out@) == start + text_fields(all, map.take(k as int)),
        decreases table@.len() - k,
    {
        let ghost before = field_views(out@);
        proof {
            assert(map.take(k + 1).drop_last() =~= map.take(k as int));
            assert(map.take(k + 1).last() == (table@[k as int].0@, table@[k as int].1@));
        }
        let entry: (&'static str, &'static str) = table[k];
        if let Some(t) = find_text(frames, entry.0) {
            add_values(out, entry.1, t.as_str());
        }
        k = k + 1;
        assert(field_views(out@) =~= start + text_fields(all, map.take(k as int)));
    }
    assert(map.take(table@.len() as int) =~= map);
}

/// Appends a field, if there is a value.
fn add_optional(out: &mut Vec<VorbisField>, name: &str, value: Option<&str>)
    ensures
        field_views(final(out)@) == field_views(old(out)@) + opt_field(
            name@,
            match value {
                Some(v) => Some(v@),
                None => None,
            },
        ),
{
    let ghost start = field_views(out@);
    match value {
        Some(v) => {
            add_field(out, name, v);
            assert(field_views(out@) =~= start + seq![(name@, v@)]);
        },
        None => {
            assert(start + Seq::<(Seq<char>, Seq<char>)>::empty() =~= start);
        },
    }
}

/// Appends a value under two names, if there is one.
fn add_twins(out: &mut Vec<VorbisField>, a: &str, b: &str, value: Option<&str>)
    ensures
        field_views(final(out)@) == field_views(old(out)@) + twin_fields(
            a@,
            b@,
            match value {
                Some(v) => Some(v@),
                None => None,
            },
        ),
{
    let ghost start = field_views(out@);
    match value {
        Some(v) => {
            add_field(out, a, v);
            add_field(out, b, v);
            assert(field_views(out@) =~= start + seq![(a@, v@), (b@, v@)]);
        },
        None => {
            assert(start + Seq::<(Seq<char>, Seq<char>)>::empty() =~= start);
        },
    }
}

/// Appends track and disc numbers.
fn add_number_fields(out: &mut Vec<VorbisField>, n: &TagNumbers)
    ensures
        field_views(final(out)@) == field_views(old(out)@) + number_fields(n@),
{
    let ghost start = field_views(out@);
    if let Some(v) = n.track {
        add_optional(out, "TRACKNUMBER", Some(to_decimal(v as u64).as_str()));
    }
    assert(field_views(out@) =~= start + opt_field("TRACKNUMBER"@, opt_decimal(n.track)));
    let ghost one = field_views(out@);
    if let Some(v) = n.total_tracks {
        add_twins(out, "TOTALTRACKS", "TRACKTOTAL", Some(to_decimal(v as u64).as_str()));
    }
    assert(field_views(out@) =~= one + twin_fields(
        "TOTALTRACKS"@,
        "TRACKTOTAL"@,
        opt_decimal(n.total_tracks),
    ));
    let ghost two = field_views(out@);
    if let Some(v) = n.disc {
        add_optional(out, "DISCNUMBER", Some(to_decimal(v as u64).as_str()));
    }
    assert(field_views(out@) =~= two + opt_field("DISCNUMBER"@, opt_decimal(n.disc)));
    let ghost three = field_views(out@);
    if let Some(v) = n.total_discs {
        add_twins(out, "TOTALDISCS", "DISCTOTAL", Some(to_decimal(v as u64).as_str()));
    }
    assert(field_views(out@) =~= three + twin_fields(
        "TOTALDISCS"@,
        "DISCTOTAL"@,
        opt_decimal(n.total_discs),
    ));
    assert(field_views(out@) =~= start + number_fields(n@));
}

/// The text in an optional string.
fn as_text(o: Option<&String>) -> (r: Option<&str>)
    ensures
        match (o, r) {
            (Some(s), Some(t)) => s@ == t@,
            (None, None) => true,
            _ => false,
        },
{
    match o {
        Some(s) => Some(s.as_str()),
        None => None,
    }
}

/// Appends the date.
fn add_date(out: &mut Vec<VorbisField>, n: &TagNumbers)
    ensures
        field_views(final(out)@) == field_views(old(out)@) + opt_field("DATE"@, date_value(n@)),
{
    match &n.date {
        Some(d) => add_optional(out, "DATE", Some(d.as_str())),
        None => match n.year {
            Some(y) => {
                let text: String = to_decimal_signed(y);
                add_optional(out, "DATE", Some(text.as_str()))
            },
            None => add_optional(out, "DATE", None),
        },
    }
}

/// Appends the original date.
fn add_original_date(out: &mut Vec<VorbisField>, frames: &Vec<Id3Frame>)
    ensures
        field_views(final(out)@) == field_views(old(out)@) + opt_field(
            "ORIGINALDATE"@,
            original_date(frame_views(frames@)),
        ),
{
    let original: Option<&String> = match find_frame(frames, "TDOR") {
        Some(Id3Content::Text(t)) => Some(t),
        Some(_) => None,
        None => find_text(frames, "TORY"),
    };
    add_optional(out, "ORIGINALDATE", as_text(original));
}

/// Appends the movement.
fn add_movement(out: &mut Vec<VorbisField>, frames: &Vec<Id3Frame>)
    ensures
        field_views(final(out)@) == field_views(old(out)@) + twin_fields(
            "MOVEMENTTOTAL"@,
            "MOVEMENT"@,
            text_of(frame_views(frames@), "MVIN"@),
        ),
{
    let movement: Option<&String> = find_text(frames, "MVIN");
    add_twins(out, "MOVEMENTTOTAL", "MOVEMENT", as_text(movement));
}

/// Appends the comment.
fn add_comment(out: &mut Vec<VorbisField>, frames: &Vec<Id3Frame>)
    ensures
        field_views(final(out)@) == field_views(old(out)@) + opt_field(
            "COMMENT"@,
            comment_value(frame_views(frames@)),
        ),
{
    let comment: Option<&String> = match find_frame(frames, "COMM") {
        Some(Id3Content::Comment(t)) => Some(t),
        _ => None,
    };
    add_optional(out, "COMMENT", as_text(comment));
}

/// Appends the lyrics.
fn add_lyrics(out: &mut Vec<VorbisField>, frames: &Vec<Id3Frame>)
    ensures
        field_views(final(out)@) == field_views(old(out)@) + opt_field(
            "LYRICS"@,
            lyrics_value(frame_views(frames@)),
        ),
{
    let lyrics: Option<&String> = match find_frame(frames, "USLT") {
        Some(Id3Content::Lyrics(t)) => Some(t),
        _ => None,
    };
    add_optional(out, "LYRICS", as_text(lyrics));
}

/// Appends dates, movement, comment and lyrics.
fn add_single_fields(out: &mut Vec<VorbisField>, frames: &Vec<Id3Frame>, n: &TagNumbers)
    ensures
        field_views(final(out)@) == field_views(old(out)@) + single_fields(
            frame_views(frames@),
            n@,
        ),
{
    let ghost start = field_views(out@);
    add_date(out, n);
    add_original_date(out, frames);
    add_movement(out, frames);
    add_comment(out, frames);
    add_lyrics(out, frames);
    assert(field_views(out@) =~= start + single_fields(frame_views(frames@), n@));
}

/// Appends the fields for one person.
fn add_role_fields(out: &mut Vec<VorbisField>, person: &Person)
    ensures
        field_views(final(out)@) == field_views(old(out)@) + role_fields(
            (person.involvement@, person.involvee@),
            id3_tipl_vorbis_map(),
        ),
{
    let ghost start = field_views(out@);
    let ghost who = (person.involvement@, person.involvee@);
    let table: Vec<(&'static str, &'static str)> = id3_tipl_vorbis_table();
    let ghost map = id3_tipl_vorbis_map();
    let mut k: usize = 0;
    assert(start + role_fields(who, map.take(0)) =~= start);
    while k < table.len()
        invariant
            k <= table@.len(),
            map == table_views(table@),
            who == (person.involvement@, person.involvee@),
            field_views(out@) == start + role_fields(who, map.take(k as int)),
        decreases table@.len() - k,
    {
        proof {
            assert(map.take(k + 1).drop_last() =~= map.take(k as int));
            assert(map.take(k + 1).last() == (table@[k as int].0@, table@[k as int].1@));
        }
        let entry: (&'static str, &'static str) = table[k];
        if eq_ignore_ascii_case(person.involvement.as_str(), entry.0) {
            add_field(out, entry.1, person.involvee.as_str());
        }
        k = k + 1;
        assert(field_views(out@) =~= start + role_fields(who, map.take(k as int)));
    }
    assert(map.take(table@.len() as int) =~= map);
}

/// Appends the fields for a list of people.
fn add_people_fields(out: &mut Vec<VorbisField>, people: &Vec<Person>)
    ensures
        field_views(final(out)@) == field_views(old(out)@) + people_fields(people_view(people@)),
{
    let ghost start = field_views(out@);
    let ghost all = people_view(people@);
    let mut k: usize = 0;
    assert(start + people_fields(all.take(0)) =~= start);
    while k < people.len()
        invariant
            k <= people@.len(),
            all == people_view(people@),
            field_views(out@) == start + people_fields(all.take(k as int)),
        decreases people@.len() - k,
    {
        proof {
            assert(all.take(k + 1).drop_last() =~= all.take(k as int));
            assert(all.take(k + 1).last() == all[k as int]);
        }
        add_role_fields(out, &people[k]);
        k = k + 1;
        assert(field_views(out@) =~= start + people_fields(all.take(k as int)));
    }
    assert(all.take(people@.len() as int) =~= all);
}

/// Appends the fields for the people in TIPL and IPLS frames.
fn add_involved_fields(out: &mut Vec<VorbisField>, frames: &Vec<Id3Frame>)
    ensures
        field_views(final(out)@) == field_views(old(out)@) + involved_fields(frame_views(frames@)),
{
    let ghost start = field_views(out@);
    let ghost all = frame_views(frames@);
    let mut k: usize = 0;
    assert(start + involved_fields(all.take(0)) =~= start);
    while k < frames.len()
        invariant
            k <= frames@.len(),
            all == frame_views(frames@),
            field_views(out@) == start + involved_fields(all.take(k as int)),
        decreases frames@.len() - k,
    {
        proof {
            assert(all.take(k + 1).drop_last() =~= all.take(k as int));
            assert(all.take(k + 1).last() == frames@[k as int]@);
        }
        let id: &str = frames[k].id.as_str();
        if same_text(id, "TIPL") || same_text(id, "IPLS") {
            if let Id3Content::People(people) = &frames[k].content {
                add_people_fields(out, people);
            }
        }
        k = k + 1;
        assert(field_views(out@) =~= start + involved_fields(all.take(k as int)));
    }
    assert(all.take(frames@.len() as int) =~= all);
}

/// Appends the fields for a list of performers.
fn add_performer_list(out: &mut Vec<VorbisField>, people: &Vec<Person>)
    ensures
        field_views(final(out)@) == field_views(old(out)@) + performer_list(people_view(people@)),
{
    let ghost start = field_views(out@);
    let ghost all = performer_list(people_view(people@));
    let mut k: usize = 0;
    assert(start + all.take(0) =~= start);
    while k < people.len()
        invariant
            k <= people@.len(),
            all == performer_list(people_view(people@)),
            field_views(out@) == start + all.take(k as int),
        decreases people@.len() - k,
    {
        let mut text: String = people[k].involvee.clone();
        text.append(" (");
        text.append(people[k].involvement.as_str());
        text.append(")");
        assert(text@ == performer_text(people_view(people@)[k as int]));
        add_field(out, "PERFORMER", text.as_str());
        k = k + 1;
        assert(field_views(out@) =~= start + all.take(k as int));
    }
    assert(all.take(people@.len() as int) =~= all);
}

/// Appends the fields for the performers in TMCL frames.
fn add_performer_fields(out: &mut Vec<VorbisField>, frames: &Vec<Id3Frame>)
    ensures
        field_views(final(out)@) == field_views(old(out)@) + performer_fields(
            frame_views(frames@),
        ),
{
    let ghost start = field_views(out@);
    let ghost all = frame_views(frames@);
    let mut k: usize = 0;
    assert(start + performer_fields(all.take(0)) =~= start);
    while k < frames.len()
        invariant
            k <= frames@.len(),
            all == frame_views(frames@),
            field_views(out@) == start + performer_fields(all.take(k as int)),
        decreases frames@.len() - k,
    {
        proof {
            assert(all.take(k + 1).drop_last() =~= all.take(k as int));
            assert(all.take(k + 1).last() == frames@[k as int]@);
        }
        if same_text(frames[k].id.as_str(), "TMCL") {
            if let Id3Content::People(people) = &frames[k].content {
                add_performer_list(out, people);
            }
        }
        k = k + 1;
        assert(field_views(out@) =~= start + performer_fields(all.take(k as int)));
    }
    assert(all.take(frames@.len() as int) =~= all);
}

/// `std::str::from_utf8`: the text that bytes in UTF-8 stand for; none if the
/// bytes are not in UTF-8.
#[verifier::external_body]
fn utf8_text(b: &Vec<u8>) -> (r: Option<String>)
    ensures
        match r {
            Some(s) => vstd::utf8::valid_utf8(b@) && s@ == vstd::utf8::decode_utf8(b@),
            None => !vstd::utf8::valid_utf8(b@),
        },
{
    std::str::from_utf8(b).ok().map(|s| s.to_owned())
}

/// Appends the fields for the MusicBrainz identifiers in UFID frames.
fn add_file_id_fields(out: &mut Vec<VorbisField>, frames: &Vec<Id3Frame>)
    ensures
        field_views(final(out)@) == field_views(old(out)@) + file_id_fields(frame_views(frames@)),
{
    let ghost start = field_views(out@);
    let ghost all = frame_views(frames@);
    let mut k: usize = 0;
    assert(start + file_id_fields(all.take(0)) =~= start);
    while k < frames.len()
        invariant
            k <= frames@.len(),
            all == frame_views(frames@),
            field_views(out@) == start + file_id_fields(all.take(k as int)),
        decreases frames@.len() - k,
    {
        proof {
            assert(all.take(k + 1).drop_last() =~= all.take(k as int));
            assert(all.take(k + 1).last() == frames@[k as int]@);
        }
        if same_text(frames[k].id.as_str(), "UFID") {
            if let Id3Content::FileIdentifier(owner, identifier) = &frames[k].content {
                if same_text(owner.as_str(), "http://musicbrainz.org") {
                    if let Some(text) = utf8_text(identifier) {
                        add_field(out, "MUSICBRAINZ_TRACKID", text.as_str());
                    }
                }
            }
        }
        k = k + 1;
        assert(field_views(out@) =~= start + file_id_fields(all.take(k as int)));
    }
    assert(all.take(frames@.len() as int) =~= all);
}

/// Appends license and website.
fn add_link_fields(out: &mut Vec<VorbisField>, frames: &Vec<Id3Frame>)
    ensures
        field_views(final(out)@) == field_views(old(out)@) + link_fields(frame_views(frames@)),
{
    let ghost start = field_views(out@);
    let ghost all = frame_views(frames@);
    let license: Option<&String> = match find_frame(frames, "WCOP") {
        Some(Id3Content::Link(t)) => Some(t),
        _ => None,
    };
    add_optional(out, "LICENSE", as_text(license));
    assert(field_views(out@) == start + opt_field("LICENSE"@, link_of(all, "WCOP"@)));
    let website: Option<&String> = match find_frame(frames, "WOAR") {
        Some(Id3Content::Link(t)) => Some(t),
        _ => None,
    };
    add_optional(out, "WEBSITE", as_text(website));
    assert(field_views(out@) =~= start + link_fields(all));
}

/// The name of the field for an extended text.
fn extended_field_name(description: &str) -> (r: String)
    ensures
        r@ == extended_name(description@, id3_txxx_vorbis_map()),
{
    let table: Vec<(&'static str, &'static str)> = id3_txxx_vorbis_table();
    let ghost map = id3_txxx_vorbis_map();
    let mut k: usize = 0;
    assert(map.skip(0) =~= map);
    while k < table.len()
        invariant
            k <= table@.len(),
            map == table_views(table@),
            map == id3_txxx_vorbis_map(),
            extended_name(description@, map.skip(k as int)) == extended_name(description@, map),
        decreases table@.len() - k,
    {
        let entry: (&'static str, &'static str) = table[k];
        assert(map.skip(k as int)[0] == (entry.0@, entry.1@));
        assert(map.skip(k as int).skip(1) =~= map.skip(k + 1));
        if eq_ignore_ascii_case(entry.0, description) {
            return entry.1.to_owned();
        }
        k = k + 1;
    }
    description.to_owned()
}

/// Appends the fields for the extended texts.
fn add_extended_fields(out: &mut Vec<VorbisField>, frames: &Vec<Id3Frame>)
    ensures
        field_views(final(out)@) == field_views(old(out)@) + extended_fields(frame_views(frames@)),
{
    let ghost start = field_views(out@);
    let ghost all = frame_views(frames@);
    let mut k: usize = 0;
    assert(start + extended_fields(all.take(0)) =~= start);
    while k < frames.len()
        invariant
            k <= frames@.len(),
            all == frame_views(frames@),
            field_views(out@) == start + extended_fields(all.take(k as int)),
        decreases frames@.len() - k,
    {
        proof {
            assert(all.take(k + 1).drop_last() =~= all.take(k as int));
            assert(all.take(k + 1).last() == frames@[k as int]@);
        }
        if let Id3Content::ExtendedText(description, value) = &frames[k].content {
            if description.as_str().unicode_len() > 0 {
                let name: String = extended_field_name(description.as_str());
                add_values(out, name.as_str(), value.as_str());
            }
        }
        k = k + 1;
        assert(field_views(out@) =~= start + extended_fields(all.take(k as int)));
    }
    assert(all.take(frames@.len() as int) =~= all);
}

/// All fields of the Vorbis comment for a tag with the given frames, numbers and
/// date, in order.
pub fn vorbis_fields(frames: &Vec<Id3Frame>, numbers: &TagNumbers) -> (r: Vec<VorbisField>)
    ensures
        field_views(r@) == vorbis_field_list(frame_views(frames@), numbers@),
{
    let mut out: Vec<VorbisField> = Vec::new();
    let ghost all = frame_views(frames@);
    add_text_fields(&mut out, frames);
    add_number_fields(&mut out, numbers);
    add_single_fields(&mut out, frames, numbers);
    add_involved_fields(&mut out, frames);
    add_performer_fields(&mut out, frames);
    add_file_id_fields(&mut out, frames);
    add_link_fields(&mut out, frames);
    add_extended_fields(&mut out, frames);
    assert(field_views(out@) =~= vorbis_field_list(all, numbers@));
    out
}

/// Whether the names of all fields can stand in a Vorbis comment: the extended
/// texts that give a field have no equals sign in their descriptions.
pub open spec fn names_insertable(frames: Seq<FrameModel>) -> bool {
    forall|i: int|
        0 <= i < frames.len() ==> match #[trigger] frames[i].content {
            ContentModel::ExtendedText(d, v) => d.len() > 0 && values_of(v).len() > 0
                ==> !d.contains('='),
            _ => true,
        }
}

/// Whether a text has an equals sign.
fn has_equals_sign(s: &str) -> (r: bool)
    ensures
        r == s@.contains('='),
{
    for c in it: s.chars()
        invariant
            it.seq() == s@,
            forall|j: int| 0 <= j < it.index() ==> s@[j] != '=',
    {
        if c == '=' {
            assert(s@[it.index() as int] == '=');
            return true;
        }
    }
    false
}

/// Whether the names of all fields can stand in a Vorbis comment.
pub fn are_names_insertable(frames: &Vec<Id3Frame>) -> (r: bool)
    ensures
        r == names_insertable(frame_views(frames@)),
{
    let ghost all = frame_views(frames@);
    let mut k: usize = 0;
    while k < frames.len()
        invariant
            k <= frames@.len(),
            all == frame_views(frames@),
            forall|i: int|
                0 <= i < k ==> match #[trigger] all[i].content {
                    ContentModel::ExtendedText(d, v) => d.len() > 0 && values_of(v).len() > 0
                        ==> !d.contains('='),
                    _ => true,
                },
        decreases frames@.len() - k,
    {
        assert(all[k as int] == frames@[k as int]@);
        if let Id3Content::ExtendedText(description, value) = &frames[k].content {
            let values: Vec<String> = split_values(value.as_str());
            assert(values@.len() == text_views(values@).len());
            if description.as_str().unicode_len() > 0 && values.len() > 0 && has_equals_sign(
                description.as_str(),
            ) {
                assert(all[k as int].content is ExtendedText);
                return false;
            }
        }
        k = k + 1;
    }
    true
}

/// Whether no name in a list of fields has an equals sign.
pub open spec fn names_plain(fields: Seq<(Seq<char>, Seq<char>)>) -> bool {
    forall|i: int| 0 <= i < fields.len() ==> !(#[trigger] fields[i]).0.contains('=')
}

/// The names in the first table.
proof fn lemma_text_names()
    ensures
        forall|i: int|
            0 <= i < id3_vorbis_map().len() ==> !(#[trigger] id3_vorbis_map()[i]).1.contains('='),
{
    reveal_strlit("ARTIST");
    reveal_strlit("ALBUMARTIST");
    reveal_strlit("ALBUMARTISTSORT");
    reveal_strlit("ALBUMSORT");
    reveal_strlit("ARTISTSORT");
    reveal_strlit("TITLESORT");
    reveal_strlit("TITLE");
    reveal_strlit("ALBUM");
    reveal_strlit("COMPOSER");
    reveal_strlit("COPYRIGHT");
    reveal_strlit("GENRE");
    reveal_strlit("GROUPING");
    reveal_strlit("ISRC");
    reveal_strlit("LABEL");
    reveal_strlit("LYRICIST");
    reveal_strlit("ENCODER");
    reveal_strlit("CONDUCTOR");
    reveal_strlit("REMIXER");
    reveal_strlit("MOOD");
    reveal_strlit("KEY");
    reveal_strlit("LANGUAGE");
    reveal_strlit("MEDIA");
    reveal_strlit("ORIGINALFILENAME");
    reveal_strlit("RELEASEDATE");
}

/// The names in the other tables, and in none.
proof fn lemma_other_names()
    ensures
        forall|i: int|
            0 <= i < id3_tipl_vorbis_map().len() ==> !(
            #[trigger] id3_tipl_vorbis_map()[i]).1.contains('='),
        forall|i: int|
            0 <= i < id3_txxx_vorbis_map().len() ==> !(
            #[trigger] id3_txxx_vorbis_map()[i]).1.contains('='),
        !"PERFORMER"@.contains('='),
        !"MUSICBRAINZ_TRACKID"@.contains('='),
{
    reveal_strlit("ARRANGER");
    reveal_strlit("ENGINEER");
    reveal_strlit("DJMIXER");
    reveal_strlit("MIXER");
    reveal_strlit("PRODUCER");
    reveal_strlit("REPLAYGAIN_TRACK_GAIN");
    reveal_strlit("REPLAYGAIN_ALBUM_GAIN");
    reveal_strlit("REPLAYGAIN_TRACK_PEAK");
    reveal_strlit("REPLAYGAIN_ALBUM_PEAK");
    reveal_strlit("ASIN");
    reveal_strlit("BARCODE");
    reveal_strlit("CATALOGNUMBER");
    reveal_strlit("PERFORMER");
    reveal_strlit("MUSICBRAINZ_TRACKID");
}

/// The names of the numbers.
proof fn lemma_number_names(n: NumbersModel)
    ensures
        names_plain(number_fields(n)),
{
    reveal_strlit("TRACKNUMBER");
    reveal_strlit("TOTALTRACKS");
    reveal_strlit("TRACKTOTAL");
    reveal_strlit("DISCNUMBER");
    reveal_strlit("TOTALDISCS");
    reveal_strlit("DISCTOTAL");
}

/// The names of dates, movement, comment and lyrics.
proof fn lemma_single_names(frames: Seq<FrameModel>, n: NumbersModel)
    ensures
        names_plain(single_fields(frames, n)),
{
    reveal_strlit("DATE");
    reveal_strlit("ORIGINALDATE");
    reveal_strlit("MOVEMENTTOTAL");
    reveal_strlit("MOVEMENT");
    reveal_strlit("COMMENT");
    reveal_strlit("LYRICS");
}

/// The names of license and website.
proof fn lemma_link_names(frames: Seq<FrameModel>)
    ensures
        names_plain(link_fields(frames)),
{
    reveal_strlit("LICENSE");
    reveal_strlit("WEBSITE");
}

/// The names of the text frames' fields.
proof fn lemma_text_fields_plain(
    frames: Seq<FrameModel>,
    table: Seq<(Seq<char>, Seq<char>)>,
)
    requires
        forall|i: int| 0 <= i < table.len() ==> !(#[trigger] table[i]).1.contains('='),
    ensures
        names_plain(text_fields(frames, table)),
    decreases table.len(),
{
    if table.len() > 0 {
        let rest = table.drop_last();
        assert forall|i: int| 0 <= i < rest.len() implies !(#[trigger] rest[i]).1.contains(
            '=',
        ) by {
            assert(rest[i] == table[i]);
        }
        lemma_text_fields_plain(frames, rest);
        assert(!table[table.len() - 1].1.contains('='));
    }
}

/// The names of one person's fields.
proof fn lemma_role_fields_plain(
    person: (Seq<char>, Seq<char>),
    table: Seq<(Seq<char>, Seq<char>)>,
)
    requires
        forall|i: int| 0 <= i < table.len() ==> !(#[trigger] table[i]).1.contains('='),
    ensures
        names_plain(role_fields(person, table)),
    decreases table.len(),
{
    if table.len() > 0 {
        let rest = table.drop_last();
        assert forall|i: int| 0 <= i < rest.len() implies !(#[trigger] rest[i]).1.contains(
            '=',
        ) by {
            assert(rest[i] == table[i]);
        }
        lemma_role_fields_plain(person, rest);
        assert(!table[table.len() - 1].1.contains('='));
    }
}

/// The names of some people's fields.
proof fn lemma_people_fields_plain(people: Seq<(Seq<char>, Seq<char>)>)
    ensures
        names_plain(people_fields(people)),
    decreases people.len(),
{
    if people.len() > 0 {
        lemma_people_fields_plain(people.drop_last());
        lemma_other_names();
        lemma_role_fields_plain(people.last(), id3_tipl_vorbis_map());
    }
}

/// The name of an extended text's field is a name in the table or its
/// description.
proof fn lemma_extended_name(description: Seq<char>, table: Seq<(Seq<char>, Seq<char>)>)
    requires
        forall|i: int| 0 <= i < table.len() ==> !(#[trigger] table[i]).1.contains('='),
        !description.contains('='),
    ensures
        !extended_name(description, table).contains('='),
    decreases table.len(),
{
    if table.len() > 0 {
        let rest = table.skip(1);
        assert forall|i: int| 0 <= i < rest.len() implies !(#[trigger] rest[i]).1.contains(
            '=',
        ) by {
            assert(rest[i] == table[i + 1]);
        }
        lemma_extended_name(description, rest);
        assert(!table[0].1.contains('='));
    }
}

/// The names of the fields that come frame by frame.
proof fn lemma_frame_fields_plain(frames: Seq<FrameModel>)
    requires
        names_insertable(frames),
    ensures
        names_plain(involved_fields(frames)),
        names_plain(performer_fields(frames)),
        names_plain(file_id_fields(frames)),
        names_plain(extended_fields(frames)),
    decreases frames.len(),
{
    if frames.len() > 0 {
        let rest = frames.drop_last();
        let f = frames.last();
        assert(names_insertable(rest)) by {
            assert forall|i: int| 0 <= i < rest.len() implies match #[trigger] rest[i].content {
                ContentModel::ExtendedText(d, v) => d.len() > 0 && values_of(v).len() > 0
                    ==> !d.contains('='),
                _ => true,
            } by {
                assert(rest[i].content == frames[i].content);
            }
        }
        lemma_frame_fields_plain(rest);
        lemma_other_names();
        match f.content {
            ContentModel::People(people) => {
                lemma_people_fields_plain(people);
            },
            ContentModel::ExtendedText(d, v) => {
                assert(frames[frames.len() - 1].content == f.content);
                if d.len() > 0 && values_of(v).len() > 0 {
                    lemma_extended_name(d, id3_txxx_vorbis_map());
                }
            },
            _ => {},
        }
    }
}

/// If no extended text that gives a field has an equals sign in its description,
/// then no field has one in its name.
pub proof fn law_names_plain(frames: Seq<FrameModel>, n: NumbersModel)
    requires
        names_insertable(frames),
    ensures
        names_plain(vorbis_field_list(frames, n)),
{
    lemma_text_names();
    lemma_text_fields_plain(frames, id3_vorbis_map());
    lemma_number_names(n);
    lemma_single_names(frames, n);
    lemma_link_names(frames);
    lemma_frame_fields_plain(frames);
}

/// Which tags have names for all their fields, frame by frame: a frame stands in the way
/// exactly if it is an extended text with values, the description of which has an
/// equals sign.
pub proof fn law_insertable(frames: Seq<FrameModel>, f: FrameModel)
    ensures
        names_insertable(Seq::empty()),
        names_insertable(frames.push(f)) <==> (names_insertable(frames) && !(
        f.content matches ContentModel::ExtendedText(d, v) && d.len() > 0 && values_of(v).len() > 0
            && d.contains('='))),
{
    let more = frames.push(f);
    assert(more[frames.len() as int] == f);
    if names_insertable(more) {
        assert forall|i: int| 0 <= i < frames.len() implies match #[trigger] frames[i].content {
            ContentModel::ExtendedText(d, v) => d.len() > 0 && values_of(v).len() > 0
                ==> !d.contains('='),
            _ => true,
        } by {
            assert(more[i].content == frames[i].content);
        }
        assert(more[frames.len() as int].content == f.content);
    }
    if names_insertable(frames) {
        assert forall|i: int| 0 <= i < frames.len() implies match #[trigger] more[i].content {
            ContentModel::ExtendedText(d, v) => d.len() > 0 && values_of(v).len() > 0
                ==> !d.contains('='),
            _ => true,
        } by {
            assert(more[i].content == frames[i].content);
        }
    }
}

} // verus!
