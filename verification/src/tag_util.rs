//! From ID3 tags to the metadata of FLAC files.
use vstd::prelude::*;
use crate::cover::{
    are_covers_fitting, covers_fit, covers_of, find_covers, make_pictures, picture_views,
    pictures_of, CoverPicture,
};
use crate::id3_frames::{
    numbers_of, read_frames, read_numbers, tag_frames, Id3Frame, TagNumbers,
};
use crate::tag_fields::{
    are_names_insertable, field_views, law_names_plain, names_insertable, names_plain,
    vorbis_field_list, vorbis_fields, VorbisField,
};
use crate::text::{decimal, decimal_value, law_decimal_read_back, to_decimal};

verus! {

/// `flac_codec::metadata::VorbisComment`: a vendor text and a list of fields.
#[verifier::external_type_specification]
#[verifier::external_body]
pub struct ExVorbisComment(flac_codec::metadata::VorbisComment);

/// The fields of a Vorbis comment, each a text of name, equals sign and value.
pub uninterp spec fn comment_fields(c: flac_codec::metadata::VorbisComment) -> Seq<Seq<char>>;

/// The vendor text of a Vorbis comment.
pub uninterp spec fn comment_vendor(c: flac_codec::metadata::VorbisComment) -> Seq<char>;

/// A `flac_codec::metadata::VorbisComment` with the given vendor text and no
/// fields.
#[verifier::external_body]
fn new_comment(vendor: String) -> (r: flac_codec::metadata::VorbisComment)
    ensures
        comment_vendor(r) == vendor@,
        comment_fields(r) == Seq::<Seq<char>>::empty(),
{
    flac_codec::metadata::VorbisComment { vendor_string: vendor, fields: Vec::new() }
}

/// `flac_codec::metadata::VorbisComment::insert`: appends the field. The name must
/// not have an equals sign.
#[verifier::external_body]
fn insert_field(c: &mut flac_codec::metadata::VorbisComment, name: &str, value: &str)
    requires
        !name@.contains('='),
    ensures
        comment_fields(*final(c)) == comment_fields(*old(c)).push(field_text((name@, value@))),
        comment_vendor(*final(c)) == comment_vendor(*old(c)),
{
    c.insert(name, value);
}

/// A field as it stands in a Vorbis comment.
pub open spec fn field_text(f: (Seq<char>, Seq<char>)) -> Seq<char> {
    f.0 + seq!['='] + f.1
}

/// Fields as they stand in a Vorbis comment.
pub open spec fn field_texts(fields: Seq<(Seq<char>, Seq<char>)>) -> Seq<Seq<char>> {
    Seq::new(fields.len(), |i: int| field_text(fields[i]))
}

/// The text that names this program, its version and the time of conversion.
pub open spec fn vendor_text(version: Seq<char>, unix_seconds: nat) -> Seq<char> {
    "dsd2dxd v"@ + version + " Unix datetime "@ + decimal(unix_seconds)
}

/// The text that names this program, its version and the time of conversion.
pub fn vendor_string(version: &str, unix_seconds: u64) -> (r: String)
    ensures
        r@ == vendor_text(version@, unix_seconds as nat),
{
    let mut r: String = "dsd2dxd v".to_owned();
    r.append(version);
    r.append(" Unix datetime ");
    r.append(to_decimal(unix_seconds).as_str());
    r
}

/// The position of the first equals sign in a text, or its length.
pub open spec fn equals_sign(s: Seq<char>) -> nat
    decreases s.len(),
{
    if s.len() == 0 || s[0] == '=' {
        0
    } else {
        1 + equals_sign(s.skip(1))
    }
}

/// The name and the value of a field in a Vorbis comment: what stands before and
/// behind its first equals sign.
pub open spec fn read_field(s: Seq<char>) -> (Seq<char>, Seq<char>) {
    (s.take(equals_sign(s) as int), s.skip(equals_sign(s) as int + 1))
}

/// Where the equals sign of a field is.
proof fn lemma_equals_sign(name: Seq<char>, rest: Seq<char>)
    requires
        !name.contains('='),
        rest.len() > 0,
        rest[0] == '=',
    ensures
        equals_sign(name + rest) == name.len(),
    decreases name.len(),
{
    if name.len() > 0 {
        assert(name[0] != '=') by {
            assert(name.contains(name[0]));
        }
        assert(!name.skip(1).contains('=')) by {
            if name.skip(1).contains('=') {
                let i = choose|i: int| 0 <= i < name.skip(1).len() && name.skip(1)[i] == '=';
                assert(name[i + 1] == '=');
            }
        }
        lemma_equals_sign(name.skip(1), rest);
        assert((name + rest).skip(1) =~= name.skip(1) + rest);
    } else {
        assert(name + rest =~= rest);
    }
}

/// Every field of the Vorbis comment for a tag is read back with the name and the
/// value it was written with.
pub proof fn law_fields_read_back(tag: id3::Tag, i: int)
    requires
        names_insertable(tag_frames(tag)),
        0 <= i < tag_fields(tag).len(),
    ensures
        read_field(field_texts(tag_fields(tag))[i]) == tag_fields(tag)[i],
{
    law_names_plain(tag_frames(tag), numbers_of(tag_frames(tag)));
    let f = tag_fields(tag)[i];
    let rest = seq!['='] + f.1;
    assert(field_text(f) =~= f.0 + rest);
    lemma_equals_sign(f.0, rest);
    assert(field_text(f).take(f.0.len() as int) =~= f.0);
    assert(field_text(f).skip(f.0.len() as int + 1) =~= f.1);
}

/// The fields of the Vorbis comment for a tag.
pub open spec fn tag_fields(tag: id3::Tag) -> Seq<(Seq<char>, Seq<char>)> {
    vorbis_field_list(tag_frames(tag), numbers_of(tag_frames(tag)))
}

/// Whether a tag can be converted: no field has an equals sign in its name, and
/// the color depths of the covers fit in a byte.
pub open spec fn tag_convertible(tag: id3::Tag) -> bool {
    names_insertable(tag_frames(tag)) && covers_fit(covers_of(tag_frames(tag)))
}

/// Whether a tag can be converted.
pub fn is_tag_convertible(tag: &id3::Tag) -> (r: bool)
    ensures
        r == tag_convertible(*tag),
{
    let frames: Vec<Id3Frame> = read_frames(tag);
    are_names_insertable(&frames) && are_covers_fitting(&find_covers(&frames))
}

/// Converts an ID3 tag to the metadata of a FLAC file: a Vorbis comment with the
/// fields that MusicBrainz Picard would give, and the covers.
pub fn id3_to_vorbis(tag: &id3::Tag, version: &str, unix_seconds: u64) -> (r: (
    flac_codec::metadata::VorbisComment,
    Vec<CoverPicture>,
))
    requires
        tag_convertible(*tag),
    ensures
        comment_vendor(r.0) == vendor_text(version@, unix_seconds as nat),
        comment_fields(r.0) == field_texts(tag_fields(*tag)),
        picture_views(r.1@) == pictures_of(covers_of(tag_frames(*tag))),
{
    let frames: Vec<Id3Frame> = read_frames(tag);
    let numbers: TagNumbers = read_numbers(tag);
    let fields: Vec<VorbisField> = vorbis_fields(&frames, &numbers);
    let ghost all = tag_fields(*tag);
    proof {
        law_names_plain(tag_frames(*tag), numbers_of(tag_frames(*tag)));
    }
    let mut comment: flac_codec::metadata::VorbisComment = new_comment(
        vendor_string(version, unix_seconds),
    );
    let mut k: usize = 0;
    assert(comment_fields(comment) =~= field_texts(all).take(0));
    while k < fields.len()
        invariant
            k <= fields@.len(),
            all == field_views(fields@),
            names_plain(all),
            comment_vendor(comment) == vendor_text(version@, unix_seconds as nat),
            comment_fields(comment) == field_texts(all).take(k as int),
        decreases fields@.len() - k,
    {
        assert(all[k as int] == (fields@[k as int].name@, fields@[k as int].value@));
        insert_field(&mut comment, fields[k].name.as_str(), fields[k].value.as_str());
        k = k + 1;
        assert(comment_fields(comment) =~= field_texts(all).take(k as int));
    }
    assert(field_texts(all).take(fields@.len() as int) =~= field_texts(all));
    let pictures: Vec<CoverPicture> = make_pictures(&find_covers(&frames));
    (comment, pictures)
}

/// Converts an ID3 tag to the metadata of a FLAC file, if it can be converted.
pub fn try_id3_to_vorbis(tag: &id3::Tag, version: &str, unix_seconds: u64) -> (r: Option<
    (flac_codec::metadata::VorbisComment, Vec<CoverPicture>),
>)
    ensures
        match r {
            Some(m) => {
                &&& tag_convertible(*tag)
                &&& comment_vendor(m.0) == vendor_text(version@, unix_seconds as nat)
                &&& comment_fields(m.0) == field_texts(tag_fields(*tag))
                &&& picture_views(m.1@) == pictures_of(covers_of(tag_frames(*tag)))
            },
            None => !tag_convertible(*tag),
        },
{
    if is_tag_convertible(tag) {
        Some(id3_to_vorbis(tag, version, unix_seconds))
    } else {
        None
    }
}

/// The version and the time can be read back from the vendor text: the version follows
/// the nine characters of the program's name, and the time in decimal is its end,
/// after fifteen more.
pub proof fn law_vendor_text(version: Seq<char>, unix_seconds: nat)
    ensures
        ({
            let t = vendor_text(version, unix_seconds);
            let k = version.len() as int;
            &&& t.len() > 24 + k
            &&& t.take(9) == seq!['d', 's', 'd', '2', 'd', 'x', 'd', ' ', 'v']
            &&& t.subrange(9, 9 + k) == version
            &&& t.subrange(9 + k, 24 + k) == seq![
                ' ', 'U', 'n', 'i', 'x', ' ', 'd', 'a', 't', 'e', 't', 'i', 'm', 'e', ' ',
            ]
            &&& decimal_value(t.skip(24 + k)) == unix_seconds
        }),
{
    reveal_strlit("dsd2dxd v");
    reveal_strlit(" Unix datetime ");
    let t = vendor_text(version, unix_seconds);
    let k = version.len() as int;
    law_decimal_read_back(unix_seconds);
    assert(t.take(9) =~= seq!['d', 's', 'd', '2', 'd', 'x', 'd', ' ', 'v']);
    assert(t.subrange(9, 9 + k) =~= version);
    assert(t.subrange(9 + k, 24 + k) =~= seq![
        ' ', 'U', 'n', 'i', 'x', ' ', 'd', 'a', 't', 'e', 't', 'i', 'm', 'e', ' ',
    ]);
    assert(t.skip(24 + k) =~= decimal(unix_seconds));
}

/// A field as it stands in a comment: the name, an equals sign, the value.
pub proof fn law_field_text(name: Seq<char>, value: Seq<char>)
    ensures
        ({
            let t = field_text((name, value));
            &&& t.len() == name.len() + 1 + value.len()
            &&& t.take(name.len() as int) == name
            &&& t[name.len() as int] == '='
            &&& t.skip(name.len() as int + 1) == value
        }),
{
    let t = field_text((name, value));
    assert(t.take(name.len() as int) =~= name);
    assert(t.skip(name.len() as int + 1) =~= value);
}

} // verus!
