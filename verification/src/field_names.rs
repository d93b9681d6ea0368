//! Which frame of an ID3 tag becomes which field of the Vorbis comment, name by name.
use vstd::prelude::*;
use crate::id3_frames::{first_content, text_of, ContentModel, FrameModel, NumbersModel};
use crate::tag_fields::{
    comment_value, date_value, extended_fields, extended_name, file_id_fields,
    id3_tipl_vorbis_map, id3_txxx_vorbis_map, id3_vorbis_map, involved_fields, lyrics_value, opt_decimal, original_date,
    link_fields, link_of, number_fields, opt_field, people_fields, performer_fields,
    performer_list, role_fields, single_fields, text_fields, twin_fields, value_fields,
    vorbis_field_list,
};
use crate::text::{ascii_lowercase, decimal, decimal_signed, same_but_for_case, values_of};

verus! {

/// The values of the fields with a name, in order.
pub open spec fn values_named(fields: Seq<(Seq<char>, Seq<char>)>, name: Seq<char>) -> Seq<
    Seq<char>,
>
    decreases fields.len(),
{
    if fields.len() == 0 {
        Seq::empty()
    } else {
        let before = values_named(fields.drop_last(), name);
        if fields.last().0 == name {
            before.push(fields.last().1)
        } else {
            before
        }
    }
}

/// The values of the first frame with an identifier, if it holds a text.
pub open spec fn text_values(frames: Seq<FrameModel>, id: Seq<char>) -> Seq<Seq<char>> {
    match first_content(frames, id) {
        Some(ContentModel::Text(t)) => values_of(t),
        _ => Seq::empty(),
    }
}

/// One value or none.
pub open spec fn opt_values(value: Option<Seq<char>>) -> Seq<Seq<char>> {
    match value {
        Some(v) => seq![v],
        None => Seq::empty(),
    }
}

/// Some values, or none.
spec fn only_if(condition: bool, values: Seq<Seq<char>>) -> Seq<Seq<char>> {
    if condition {
        values
    } else {
        Seq::empty()
    }
}

/// A number that tells names apart.
spec fn name_key(s: Seq<char>) -> int {
    100 * s.len() + s[0] as int + 3 * s.last() as int
}

/// The names of all fields are different.
proof fn lemma_name_keys()
    ensures
        name_key("ARTIST"@) == 917,
        name_key("ALBUMARTIST"@) == 1417,
        name_key("ALBUMARTISTSORT"@) == 1817,
        name_key("ALBUMSORT"@) == 1217,
        name_key("ARTISTSORT"@) == 1317,
        name_key("TITLESORT"@) == 1236,
        name_key("TITLE"@) == 791,
        name_key("ALBUM"@) == 796,
        name_key("COMPOSER"@) == 1113,
        name_key("COPYRIGHT"@) == 1219,
        name_key("GENRE"@) == 778,
        name_key("GROUPING"@) == 1084,
        name_key("ISRC"@) == 674,
        name_key("LABEL"@) == 804,
        name_key("LYRICIST"@) == 1128,
        name_key("ENCODER"@) == 1015,
        name_key("CONDUCTOR"@) == 1213,
        name_key("REMIXER"@) == 1028,
        name_key("MOOD"@) == 681,
        name_key("KEY"@) == 642,
        name_key("LANGUAGE"@) == 1083,
        name_key("MEDIA"@) == 772,
        name_key("ORIGINALFILENAME"@) == 1886,
        name_key("RELEASEDATE"@) == 1389,
        name_key("TRACKNUMBER"@) == 1430,
        name_key("TOTALTRACKS"@) == 1433,
        name_key("TRACKTOTAL"@) == 1312,
        name_key("DISCNUMBER"@) == 1314,
        name_key("TOTALDISCS"@) == 1333,
        name_key("DISCTOTAL"@) == 1196,
        name_key("DATE"@) == 675,
        name_key("ORIGINALDATE"@) == 1486,
        name_key("MOVEMENTTOTAL"@) == 1605,
        name_key("MOVEMENT"@) == 1129,
        name_key("COMMENT"@) == 1019,
        name_key("LYRICS"@) == 925,
        name_key("ARRANGER"@) == 1111,
        name_key("ENGINEER"@) == 1115,
        name_key("DJMIXER"@) == 1014,
        name_key("MIXER"@) == 823,
        name_key("PRODUCER"@) == 1126,
        name_key("PERFORMER"@) == 1226,
        name_key("MUSICBRAINZ_TRACKID"@) == 2181,
        name_key("LICENSE"@) == 983,
        name_key("WEBSITE"@) == 994,
{
    reveal_strlit("ARTIST");
    reveal_strlit("ALBUMARTIST");
    reveal_strlit("ALBUMARTISTSORT");
    reveal_strlit("ALBUMSORT");
    reveal_strlit("ARTISTSORT");
    reveal_strlit("TITLESORT");
    reveal_strlit("TITLE");
    reveal_strlit("ALBUM");
    reveal_strlit("COMPOSER");
    reveal_strlit("COPYRIGHT");
    reveal_strlit("GENRE");
    reveal_strlit("GROUPING");
    reveal_strlit("ISRC");
    reveal_strlit("LABEL");
    reveal_strlit("LYRICIST");
    reveal_strlit("ENCODER");
    reveal_strlit("CONDUCTOR");
    reveal_strlit("REMIXER");
    reveal_strlit("MOOD");
    reveal_strlit("KEY");
    reveal_strlit("LANGUAGE");
    reveal_strlit("MEDIA");
    reveal_strlit("ORIGINALFILENAME");
    reveal_strlit("RELEASEDATE");
    reveal_strlit("TRACKNUMBER");
    reveal_strlit("TOTALTRACKS");
    reveal_strlit("TRACKTOTAL");
    reveal_strlit("DISCNUMBER");
    reveal_strlit("TOTALDISCS");
    reveal_strlit("DISCTOTAL");
    reveal_strlit("DATE");
    reveal_strlit("ORIGINALDATE");
    reveal_strlit("MOVEMENTTOTAL");
    reveal_strlit("MOVEMENT");
    reveal_strlit("COMMENT");
    reveal_strlit("LYRICS");
    reveal_strlit("ARRANGER");
    reveal_strlit("ENGINEER");
    reveal_strlit("DJMIXER");
    reveal_strlit("MIXER");
    reveal_strlit("PRODUCER");
    reveal_strlit("PERFORMER");
    reveal_strlit("MUSICBRAINZ_TRACKID");
    reveal_strlit("LICENSE");
    reveal_strlit("WEBSITE");
}

/// The values with a name in two lists of fields.
proof fn lemma_named_concat(
    a: Seq<(Seq<char>, Seq<char>)>,
    b: Seq<(Seq<char>, Seq<char>)>,
    name: Seq<char>,
)
    ensures
        values_named(a + b, name) == values_named(a, name) + values_named(b, name),
    decreases b.len(),
{
    if b.len() == 0 {
        assert(a + b =~= a);
        assert(values_named(a, name) + values_named(b, name) =~= values_named(a, name));
    } else {
        lemma_named_concat(a, b.drop_last(), name);
        assert((a + b).drop_last() =~= a + b.drop_last());
        assert(values_named(a + b, name) =~= values_named(a, name) + values_named(b, name));
    }
}

/// The values where all fields have the same name.
proof fn lemma_named_all(
    fields: Seq<(Seq<char>, Seq<char>)>,
    values: Seq<Seq<char>>,
    own: Seq<char>,
    name: Seq<char>,
)
    requires
        fields.len() == values.len(),
        forall|i: int| 0 <= i < fields.len() ==> #[trigger] fields[i] == (own, values[i]),
    ensures
        values_named(fields, name) == only_if(own == name, values),
    decreases fields.len(),
{
    if fields.len() == 0 {
        assert(values =~= Seq::empty());
    } else {
        let (f, v) = (fields.drop_last(), values.drop_last());
        assert forall|i: int| 0 <= i < f.len() implies #[trigger] f[i] == (own, v[i]) by {
            assert(f[i] == fields[i]);
        }
        lemma_named_all(f, v, own, name);
        assert(fields[fields.len() - 1] == (own, values[values.len() - 1]));
        assert(values =~= v.push(values.last()));
    }
}

/// The values of an optional field.
proof fn lemma_named_opt(own: Seq<char>, value: Option<Seq<char>>, name: Seq<char>)
    ensures
        values_named(opt_field(own, value), name) == only_if(own == name, opt_values(value)),
{
    lemma_named_all(opt_field(own, value), opt_values(value), own, name);
}

/// The values of twin fields.
proof fn lemma_named_twins(
    a: Seq<char>,
    b: Seq<char>,
    value: Option<Seq<char>>,
    name: Seq<char>,
)
    ensures
        values_named(twin_fields(a, b, value), name) == only_if(a == name, opt_values(value))
            + only_if(b == name, opt_values(value)),
{
    let (x, y) = (opt_field(a, value), opt_field(b, value));
    assert(twin_fields(a, b, value) =~= x + y);
    lemma_named_concat(x, y, name);
    lemma_named_opt(a, value, name);
    lemma_named_opt(b, value, name);
}

/// The values with a name that no text frame gives.
proof fn lemma_text_none(
    frames: Seq<FrameModel>,
    table: Seq<(Seq<char>, Seq<char>)>,
    name: Seq<char>,
)
    requires
        forall|j: int| 0 <= j < table.len() ==> (#[trigger] table[j]).1 != name,
    ensures
        values_named(text_fields(frames, table), name) == Seq::<Seq<char>>::empty(),
    decreases table.len(),
{
    if table.len() > 0 {
        let rest = table.drop_last();
        assert forall|j: int| 0 <= j < rest.len() implies (#[trigger] rest[j]).1 != name by {
            assert(rest[j] == table[j]);
        }
        lemma_text_none(frames, rest, name);
        lemma_text_last(frames, table, name);
        assert(table[table.len() - 1].1 != name);
    }
}

/// The values with a name of the last frame in a table.
proof fn lemma_text_last(
    frames: Seq<FrameModel>,
    table: Seq<(Seq<char>, Seq<char>)>,
    name: Seq<char>,
)
    requires
        table.len() > 0,
    ensures
        values_named(text_fields(frames, table), name) == values_named(
            text_fields(frames, table.drop_last()),
            name,
        ) + only_if(table.last().1 == name, text_values(frames, table.last().0)),
{
    let a = text_fields(frames, table.drop_last());
    let own = table.last().1;
    match text_of(frames, table.last().0) {
        Some(t) => {
            lemma_named_concat(a, value_fields(own, t), name);
            lemma_named_all(value_fields(own, t), values_of(t), own, name);
        },
        None => {
            lemma_named_concat(a, Seq::empty(), name);
        },
    }
}

/// The values with a name that one text frame gives.
proof fn lemma_text_one(
    frames: Seq<FrameModel>,
    table: Seq<(Seq<char>, Seq<char>)>,
    name: Seq<char>,
    i: int,
)
    requires
        0 <= i < table.len(),
        table[i].1 == name,
        forall|j: int| 0 <= j < table.len() && j != i ==> (#[trigger] table[j]).1 != name,
    ensures
        values_named(text_fields(frames, table), name) == text_values(frames, table[i].0),
    decreases table.len(),
{
    let rest = table.drop_last();
    lemma_text_last(frames, table, name);
    assert forall|j: int| 0 <= j < rest.len() && j != i implies (#[trigger] rest[j]).1 != name by {
        assert(rest[j] == table[j]);
    }
    if i == rest.len() {
        lemma_text_none(frames, rest, name);
    } else {
        lemma_text_one(frames, rest, name, i);
        assert(table[table.len() - 1].1 != name);
    }
    assert(values_named(text_fields(frames, table), name) =~= text_values(frames, table[i].0));
}

/// The values with a name that two text frames give.
proof fn lemma_text_two(
    frames: Seq<FrameModel>,
    table: Seq<(Seq<char>, Seq<char>)>,
    name: Seq<char>,
    i: int,
    k: int,
)
    requires
        0 <= i < k < table.len(),
        table[i].1 == name,
        table[k].1 == name,
        forall|j: int|
            0 <= j < table.len() && j != i && j != k ==> (#[trigger] table[j]).1 != name,
    ensures
        values_named(text_fields(frames, table), name) == text_values(frames, table[i].0)
            + text_values(frames, table[k].0),
    decreases table.len(),
{
    let rest = table.drop_last();
    lemma_text_last(frames, table, name);
    if k == rest.len() {
        assert forall|j: int| 0 <= j < rest.len() && j != i implies (#[trigger] rest[j]).1
            != name by {
            assert(rest[j] == table[j]);
        }
        lemma_text_one(frames, rest, name, i);
    } else {
        assert forall|j: int| 0 <= j < rest.len() && j != i && j != k implies (
        #[trigger] rest[j]).1 != name by {
            assert(rest[j] == table[j]);
        }
        lemma_text_two(frames, rest, name, i, k);
        assert(table[table.len() - 1].1 != name);
    }
    assert(values_named(text_fields(frames, table), name) =~= text_values(frames, table[i].0)
        + text_values(frames, table[k].0));
}

/// The people in a list who have a role, whatever its case, in order.
pub open spec fn with_role(people: Seq<(Seq<char>, Seq<char>)>, role: Seq<char>) -> Seq<Seq<char>>
    decreases people.len(),
{
    if people.len() == 0 {
        Seq::empty()
    } else {
        let before = with_role(people.drop_last(), role);
        if same_but_for_case(people.last().0, role) {
            before.push(people.last().1)
        } else {
            before
        }
    }
}

/// The people in TIPL and IPLS frames who have a role, in order.
pub open spec fn credited(frames: Seq<FrameModel>, role: Seq<char>) -> Seq<Seq<char>>
    decreases frames.len(),
{
    if frames.len() == 0 {
        Seq::empty()
    } else {
        let before = credited(frames.drop_last(), role);
        let f = frames.last();
        match f.content {
            ContentModel::People(people) => if f.id == "TIPL"@ || f.id == "IPLS"@ {
                before + with_role(people, role)
            } else {
                before
            },
            _ => before,
        }
    }
}

/// The people in TMCL frames, each followed by the instrument in parentheses.
pub open spec fn performers(frames: Seq<FrameModel>) -> Seq<Seq<char>>
    decreases frames.len(),
{
    if frames.len() == 0 {
        Seq::empty()
    } else {
        let before = performers(frames.drop_last());
        let f = frames.last();
        match f.content {
            ContentModel::People(people) => if f.id == "TMCL"@ {
                before + Seq::new(
                    people.len(),
                    |i: int| people[i].1 + seq![' ', '('] + people[i].0 + seq![')'],
                )
            } else {
                before
            },
            _ => before,
        }
    }
}

/// The texts of the identifiers in UFID frames of MusicBrainz, as far as they are
/// texts.
pub open spec fn track_ids(frames: Seq<FrameModel>) -> Seq<Seq<char>>
    decreases frames.len(),
{
    if frames.len() == 0 {
        Seq::empty()
    } else {
        let before = track_ids(frames.drop_last());
        let f = frames.last();
        match f.content {
            ContentModel::FileIdentifier(owner, b) => if f.id == "UFID"@ && owner
                == "http://musicbrainz.org"@ && vstd::utf8::valid_utf8(b) {
                before.push(vstd::utf8::decode_utf8(b))
            } else {
                before
            },
            _ => before,
        }
    }
}

/// The value that the last role in a table gives a person's field.
proof fn lemma_role_last(
    person: (Seq<char>, Seq<char>),
    table: Seq<(Seq<char>, Seq<char>)>,
    name: Seq<char>,
)
    requires
        table.len() > 0,
    ensures
        values_named(role_fields(person, table), name) == values_named(
            role_fields(person, table.drop_last()),
            name,
        ) + only_if(
            table.last().1 == name && same_but_for_case(person.0, table.last().0),
            seq![person.1],
        ),
{
    let before = role_fields(person, table.drop_last());
    if same_but_for_case(person.0, table.last().0) {
        let f = (table.last().1, person.1);
        assert(before.push(f).drop_last() =~= before);
        assert(before.push(f).last() == f);
    }
    assert(values_named(role_fields(person, table), name) =~= values_named(before, name) + only_if(
        table.last().1 == name && same_but_for_case(person.0, table.last().0),
        seq![person.1],
    ));
}

/// A person's fields with a name that no role gives.
proof fn lemma_role_none(
    person: (Seq<char>, Seq<char>),
    table: Seq<(Seq<char>, Seq<char>)>,
    name: Seq<char>,
)
    requires
        forall|j: int| 0 <= j < table.len() ==> (#[trigger] table[j]).1 != name,
    ensures
        values_named(role_fields(person, table), name) == Seq::<Seq<char>>::empty(),
    decreases table.len(),
{
    if table.len() > 0 {
        let rest = table.drop_last();
        assert forall|j: int| 0 <= j < rest.len() implies (#[trigger] rest[j]).1 != name by {
            assert(rest[j] == table[j]);
        }
        lemma_role_none(person, rest, name);
        lemma_role_last(person, table, name);
        assert(table[table.len() - 1].1 != name);
    }
}

/// A person's fields with a name that one role gives.
proof fn lemma_role_one(
    person: (Seq<char>, Seq<char>),
    table: Seq<(Seq<char>, Seq<char>)>,
    name: Seq<char>,
    i: int,
)
    requires
        0 <= i < table.len(),
        table[i].1 == name,
        forall|j: int| 0 <= j < table.len() && j != i ==> (#[trigger] table[j]).1 != name,
    ensures
        values_named(role_fields(person, table), name) == only_if(
            same_but_for_case(person.0, table[i].0),
            seq![person.1],
        ),
    decreases table.len(),
{
    let rest = table.drop_last();
    lemma_role_last(person, table, name);
    assert forall|j: int| 0 <= j < rest.len() && j != i implies (#[trigger] rest[j]).1 != name by {
        assert(rest[j] == table[j]);
    }
    if i == rest.len() {
        lemma_role_none(person, rest, name);
    } else {
        lemma_role_one(person, rest, name, i);
        assert(table[table.len() - 1].1 != name);
    }
    assert(values_named(role_fields(person, table), name) =~= only_if(
        same_but_for_case(person.0, table[i].0),
        seq![person.1],
    ));
}

/// The people with the role that gives a name.
proof fn lemma_people_one(people: Seq<(Seq<char>, Seq<char>)>, name: Seq<char>, i: int)
    requires
        0 <= i < id3_tipl_vorbis_map().len(),
        id3_tipl_vorbis_map()[i].1 == name,
        forall|j: int|
            0 <= j < id3_tipl_vorbis_map().len() && j != i ==> (
            #[trigger] id3_tipl_vorbis_map()[j]).1 != name,
    ensures
        values_named(people_fields(people), name) == with_role(people, id3_tipl_vorbis_map()[i].0),
    decreases people.len(),
{
    if people.len() > 0 {
        let rest = people.drop_last();
        lemma_people_one(rest, name, i);
        lemma_role_one(people.last(), id3_tipl_vorbis_map(), name, i);
        lemma_named_concat(
            people_fields(rest),
            role_fields(people.last(), id3_tipl_vorbis_map()),
            name,
        );
        assert(values_named(people_fields(people), name) =~= with_role(
            people,
            id3_tipl_vorbis_map()[i].0,
        ));
    }
}

/// The people with a name that no role gives.
proof fn lemma_people_none(people: Seq<(Seq<char>, Seq<char>)>, name: Seq<char>)
    requires
        forall|j: int|
            0 <= j < id3_tipl_vorbis_map().len() ==> (#[trigger] id3_tipl_vorbis_map()[j]).1
                != name,
    ensures
        values_named(people_fields(people), name) == Seq::<Seq<char>>::empty(),
    decreases people.len(),
{
    if people.len() > 0 {
        let rest = people.drop_last();
        lemma_people_none(rest, name);
        lemma_role_none(people.last(), id3_tipl_vorbis_map(), name);
        lemma_named_concat(
            people_fields(rest),
            role_fields(people.last(), id3_tipl_vorbis_map()),
            name,
        );
    }
}

/// The people of a tag with the role that gives a name.
proof fn lemma_involved_one(frames: Seq<FrameModel>, name: Seq<char>, i: int)
    requires
        0 <= i < id3_tipl_vorbis_map().len(),
        id3_tipl_vorbis_map()[i].1 == name,
        forall|j: int|
            0 <= j < id3_tipl_vorbis_map().len() && j != i ==> (
            #[trigger] id3_tipl_vorbis_map()[j]).1 != name,
    ensures
        values_named(involved_fields(frames), name) == credited(
            frames,
            id3_tipl_vorbis_map()[i].0,
        ),
    decreases frames.len(),
{
    if frames.len() > 0 {
        let rest = frames.drop_last();
        lemma_involved_one(rest, name, i);
        if let ContentModel::People(people) = frames.last().content {
            lemma_people_one(people, name, i);
            lemma_named_concat(involved_fields(rest), people_fields(people), name);
        }
    }
}

/// The people of a tag with a name that no role gives.
proof fn lemma_involved_none(frames: Seq<FrameModel>, name: Seq<char>)
    requires
        forall|j: int|
            0 <= j < id3_tipl_vorbis_map().len() ==> (#[trigger] id3_tipl_vorbis_map()[j]).1
                != name,
    ensures
        values_named(involved_fields(frames), name) == Seq::<Seq<char>>::empty(),
    decreases frames.len(),
{
    if frames.len() > 0 {
        let rest = frames.drop_last();
        lemma_involved_none(rest, name);
        if let ContentModel::People(people) = frames.last().content {
            lemma_people_none(people, name);
            lemma_named_concat(involved_fields(rest), people_fields(people), name);
        }
    }
}

/// The performers of a tag.
proof fn lemma_performers_named(frames: Seq<FrameModel>, name: Seq<char>)
    ensures
        values_named(performer_fields(frames), name) == only_if(
            "PERFORMER"@ == name,
            performers(frames),
        ),
    decreases frames.len(),
{
    reveal_strlit(" (");
    reveal_strlit(")");
    if frames.len() > 0 {
        let rest = frames.drop_last();
        lemma_performers_named(rest, name);
        if let ContentModel::People(people) = frames.last().content {
            let texts = Seq::new(
                people.len(),
                |i: int| people[i].1 + seq![' ', '('] + people[i].0 + seq![')'],
            );
            let list = performer_list(people);
            assert forall|i: int| 0 <= i < list.len() implies #[trigger] list[i] == (
                "PERFORMER"@,
                texts[i],
            ) by {
                assert(" ("@ =~= seq![' ', '(']);
                assert(")"@ =~= seq![')']);
            }
            lemma_named_all(list, texts, "PERFORMER"@, name);
            lemma_named_concat(performer_fields(rest), list, name);
        }
    }
}

/// The track identifiers of a tag.
proof fn lemma_ids_named(frames: Seq<FrameModel>, name: Seq<char>)
    ensures
        values_named(file_id_fields(frames), name) == only_if(
            "MUSICBRAINZ_TRACKID"@ == name,
            track_ids(frames),
        ),
    decreases frames.len(),
{
    if frames.len() > 0 {
        let before = file_id_fields(frames.drop_last());
        lemma_ids_named(frames.drop_last(), name);
        if file_id_fields(frames) != before {
            assert(file_id_fields(frames).drop_last() =~= before);
        }
    }
}

/// The numbers of a tag.
proof fn lemma_numbers_named(n: NumbersModel, name: Seq<char>)
    ensures
        values_named(number_fields(n), name) == only_if(
            "TRACKNUMBER"@ == name,
            number_values(n.track),
        ) + (only_if("TOTALTRACKS"@ == name, number_values(n.total_tracks)) + only_if(
            "TRACKTOTAL"@ == name,
            number_values(n.total_tracks),
        )) + only_if("DISCNUMBER"@ == name, number_values(n.disc)) + (only_if(
            "TOTALDISCS"@ == name,
            number_values(n.total_discs),
        ) + only_if("DISCTOTAL"@ == name, number_values(n.total_discs))),
{
    let a = opt_field("TRACKNUMBER"@, opt_decimal(n.track));
    let b = twin_fields("TOTALTRACKS"@, "TRACKTOTAL"@, opt_decimal(n.total_tracks));
    let c = opt_field("DISCNUMBER"@, opt_decimal(n.disc));
    let d = twin_fields("TOTALDISCS"@, "DISCTOTAL"@, opt_decimal(n.total_discs));
    lemma_named_opt("TRACKNUMBER"@, opt_decimal(n.track), name);
    lemma_named_twins("TOTALTRACKS"@, "TRACKTOTAL"@, opt_decimal(n.total_tracks), name);
    lemma_named_opt("DISCNUMBER"@, opt_decimal(n.disc), name);
    lemma_named_twins("TOTALDISCS"@, "DISCTOTAL"@, opt_decimal(n.total_discs), name);
    lemma_named_concat(a, b, name);
    lemma_named_concat(a + b, c, name);
    lemma_named_concat(a + b + c, d, name);
}

/// A number in decimal, or nothing.
pub open spec fn number_values(n: Option<u32>) -> Seq<Seq<char>> {
    match n {
        Some(n) => seq![decimal(n as nat)],
        None => Seq::empty(),
    }
}

/// The date: the time of recording, or else the year.
pub open spec fn date_values(n: NumbersModel) -> Seq<Seq<char>> {
    match (n.date, n.year) {
        (Some(d), _) => seq![d],
        (None, Some(y)) => seq![decimal_signed(y as int)],
        (None, None) => Seq::empty(),
    }
}

/// The text in the first TDOR frame; if there is no such frame, the text in the first
/// TORY frame.
pub open spec fn original_date_values(frames: Seq<FrameModel>) -> Seq<Seq<char>> {
    match (first_content(frames, "TDOR"@), first_content(frames, "TORY"@)) {
        (Some(ContentModel::Text(t)), _) => seq![t],
        (Some(_), _) => Seq::empty(),
        (None, Some(ContentModel::Text(t))) => seq![t],
        (None, _) => Seq::empty(),
    }
}

/// The text in the first frame with an identifier, as it is.
pub open spec fn whole_text(frames: Seq<FrameModel>, id: Seq<char>) -> Seq<Seq<char>> {
    match first_content(frames, id) {
        Some(ContentModel::Text(t)) => seq![t],
        _ => Seq::empty(),
    }
}

/// The comment in the first COMM frame.
pub open spec fn comment_values(frames: Seq<FrameModel>) -> Seq<Seq<char>> {
    match first_content(frames, "COMM"@) {
        Some(ContentModel::Comment(t)) => seq![t],
        _ => Seq::empty(),
    }
}

/// The lyrics in the first USLT frame.
pub open spec fn lyrics_values(frames: Seq<FrameModel>) -> Seq<Seq<char>> {
    match first_content(frames, "USLT"@) {
        Some(ContentModel::Lyrics(t)) => seq![t],
        _ => Seq::empty(),
    }
}

/// The link in the first frame with an identifier.
pub open spec fn link_values(frames: Seq<FrameModel>, id: Seq<char>) -> Seq<Seq<char>> {
    match first_content(frames, id) {
        Some(ContentModel::Link(t)) => seq![t],
        _ => Seq::empty(),
    }
}

/// Dates, comment and lyrics are what their frames say.
proof fn lemma_single_values(frames: Seq<FrameModel>, n: NumbersModel)
    ensures
        opt_values(date_value(n)) == date_values(n),
        opt_values(original_date(frames)) == original_date_values(frames),
        opt_values(text_of(frames, "MVIN"@)) == whole_text(frames, "MVIN"@),
        opt_values(comment_value(frames)) == comment_values(frames),
        opt_values(lyrics_value(frames)) == lyrics_values(frames),
{
}

/// The values of five lists of fields.
proof fn lemma_named_five(
    a: Seq<(Seq<char>, Seq<char>)>,
    b: Seq<(Seq<char>, Seq<char>)>,
    c: Seq<(Seq<char>, Seq<char>)>,
    d: Seq<(Seq<char>, Seq<char>)>,
    e: Seq<(Seq<char>, Seq<char>)>,
    name: Seq<char>,
)
    ensures
        values_named(a + b + c + d + e, name) == values_named(a, name) + values_named(b, name)
            + values_named(c, name) + values_named(d, name) + values_named(e, name),
{
    lemma_named_concat(a, b, name);
    lemma_named_concat(a + b, c, name);
    lemma_named_concat(a + b + c, d, name);
    lemma_named_concat(a + b + c + d, e, name);
}

/// Dates, movement, comment and lyrics of a tag.
proof fn lemma_singles_named(frames: Seq<FrameModel>, n: NumbersModel, name: Seq<char>)
    ensures
        values_named(single_fields(frames, n), name) == only_if("DATE"@ == name, date_values(n))
            + only_if("ORIGINALDATE"@ == name, original_date_values(frames)) + (only_if(
            "MOVEMENTTOTAL"@ == name,
            whole_text(frames, "MVIN"@),
        ) + only_if("MOVEMENT"@ == name, whole_text(frames, "MVIN"@))) + only_if(
            "COMMENT"@ == name,
            comment_values(frames),
        ) + only_if("LYRICS"@ == name, lyrics_values(frames)),
{
    let a = opt_field("DATE"@, date_value(n));
    let b = opt_field("ORIGINALDATE"@, original_date(frames));
    let c = twin_fields("MOVEMENTTOTAL"@, "MOVEMENT"@, text_of(frames, "MVIN"@));
    let d = opt_field("COMMENT"@, comment_value(frames));
    let e = opt_field("LYRICS"@, lyrics_value(frames));
    lemma_single_values(frames, n);
    lemma_named_opt("DATE"@, date_value(n), name);
    lemma_named_opt("ORIGINALDATE"@, original_date(frames), name);
    lemma_named_twins("MOVEMENTTOTAL"@, "MOVEMENT"@, text_of(frames, "MVIN"@), name);
    lemma_named_opt("COMMENT"@, comment_value(frames), name);
    lemma_named_opt("LYRICS"@, lyrics_value(frames), name);
    lemma_named_five(a, b, c, d, e, name);
}

/// The links of a tag.
proof fn lemma_links_named(frames: Seq<FrameModel>, name: Seq<char>)
    ensures
        values_named(link_fields(frames), name) == only_if(
            "LICENSE"@ == name,
            link_values(frames, "WCOP"@),
        ) + only_if("WEBSITE"@ == name, link_values(frames, "WOAR"@)),
{
    let a = opt_field("LICENSE"@, link_of(frames, "WCOP"@));
    let b = opt_field("WEBSITE"@, link_of(frames, "WOAR"@));
    lemma_named_opt("LICENSE"@, link_of(frames, "WCOP"@), name);
    lemma_named_opt("WEBSITE"@, link_of(frames, "WOAR"@), name);
    lemma_named_concat(a, b, name);
}

/// The values with a name, from all parts of the list of fields.
proof fn lemma_all_named(frames: Seq<FrameModel>, n: NumbersModel, name: Seq<char>)
    ensures
        values_named(vorbis_field_list(frames, n), name) == values_named(
            text_fields(frames, id3_vorbis_map()),
            name,
        ) + values_named(number_fields(n), name) + values_named(single_fields(frames, n), name)
            + values_named(involved_fields(frames), name) + values_named(
            performer_fields(frames),
            name,
        ) + values_named(file_id_fields(frames), name) + values_named(link_fields(frames), name)
            + values_named(extended_fields(frames), name),
{
    let a = text_fields(frames, id3_vorbis_map());
    let b = a + number_fields(n);
    let c = b + single_fields(frames, n);
    let d = c + involved_fields(frames);
    let e = d + performer_fields(frames);
    let f = e + file_id_fields(frames);
    let g = f + link_fields(frames);
    lemma_named_concat(a, number_fields(n), name);
    lemma_named_concat(b, single_fields(frames, n), name);
    lemma_named_concat(c, involved_fields(frames), name);
    lemma_named_concat(d, performer_fields(frames), name);
    lemma_named_concat(e, file_id_fields(frames), name);
    lemma_named_concat(f, link_fields(frames), name);
    lemma_named_concat(g, extended_fields(frames), name);
}

/// Whether a name is that of a field that no text frame of the first table gives.
spec fn is_other_name(name: Seq<char>) -> bool {
    ||| name == "TRACKNUMBER"@
    ||| name == "TOTALTRACKS"@
    ||| name == "TRACKTOTAL"@
    ||| name == "DISCNUMBER"@
    ||| name == "TOTALDISCS"@
    ||| name == "DISCTOTAL"@
    ||| name == "DATE"@
    ||| name == "ORIGINALDATE"@
    ||| name == "MOVEMENTTOTAL"@
    ||| name == "MOVEMENT"@
    ||| name == "COMMENT"@
    ||| name == "LYRICS"@
    ||| name == "ARRANGER"@
    ||| name == "ENGINEER"@
    ||| name == "DJMIXER"@
    ||| name == "MIXER"@
    ||| name == "PRODUCER"@
    ||| name == "PERFORMER"@
    ||| name == "MUSICBRAINZ_TRACKID"@
    ||| name == "LICENSE"@
    ||| name == "WEBSITE"@
}

/// The values with a name that only text frames and extended texts give.
proof fn lemma_text_only(frames: Seq<FrameModel>, n: NumbersModel, name: Seq<char>)
    requires
        !is_other_name(name),
    ensures
        values_named(vorbis_field_list(frames, n), name) == values_named(
            text_fields(frames, id3_vorbis_map()),
            name,
        ) + values_named(extended_fields(frames), name),
{
    lemma_all_named(frames, n, name);
    lemma_numbers_named(n, name);
    lemma_singles_named(frames, n, name);
    lemma_involved_none(frames, name);
    lemma_performers_named(frames, name);
    lemma_ids_named(frames, name);
    lemma_links_named(frames, name);
    assert(values_named(vorbis_field_list(frames, n), name) =~= values_named(
        text_fields(frames, id3_vorbis_map()),
        name,
    ) + values_named(extended_fields(frames), name));
}

/// The values with a name that one text frame gives.
proof fn lemma_text_name(frames: Seq<FrameModel>, n: NumbersModel, name: Seq<char>, i: int)
    requires
        !is_other_name(name),
        0 <= i < id3_vorbis_map().len(),
        id3_vorbis_map()[i].1 == name,
        forall|j: int|
            0 <= j < id3_vorbis_map().len() && j != i ==> (#[trigger] id3_vorbis_map()[j]).1
                != name,
    ensures
        values_named(vorbis_field_list(frames, n), name) == text_values(
            frames,
            id3_vorbis_map()[i].0,
        ) + values_named(extended_fields(frames), name),
{
    lemma_text_only(frames, n, name);
    lemma_text_one(frames, id3_vorbis_map(), name, i);
}

/// The names of artists, albums and titles: the values of each of these fields are
/// exactly those of the first frame with the identifier beside it, and then those
/// of extended texts under the same name.
pub proof fn law_title_fields(frames: Seq<FrameModel>, n: NumbersModel)
    ensures
        values_named(vorbis_field_list(frames, n), "ARTIST"@) == text_values(frames, "TPE1"@)
            + values_named(extended_fields(frames), "ARTIST"@),
        values_named(vorbis_field_list(frames, n), "ALBUMARTIST"@) == text_values(frames, "TPE2"@)
            + values_named(extended_fields(frames), "ALBUMARTIST"@),
        values_named(vorbis_field_list(frames, n), "ALBUMARTISTSORT"@) == text_values(frames, "TSO2"@)
            + values_named(extended_fields(frames), "ALBUMARTISTSORT"@),
        values_named(vorbis_field_list(frames, n), "ALBUMSORT"@) == text_values(frames, "TSOA"@)
            + values_named(extended_fields(frames), "ALBUMSORT"@),
        values_named(vorbis_field_list(frames, n), "ARTISTSORT"@) == text_values(frames, "TSOP"@)
            + values_named(extended_fields(frames), "ARTISTSORT"@),
        values_named(vorbis_field_list(frames, n), "TITLESORT"@) == text_values(frames, "TSOT"@)
            + values_named(extended_fields(frames), "TITLESORT"@),
        values_named(vorbis_field_list(frames, n), "TITLE"@) == text_values(frames, "TIT2"@)
            + values_named(extended_fields(frames), "TITLE"@),
        values_named(vorbis_field_list(frames, n), "ALBUM"@) == text_values(frames, "TALB"@)
            + values_named(extended_fields(frames), "ALBUM"@),
{
    lemma_name_keys();
    lemma_text_name(frames, n, "ARTIST"@, 0);
    lemma_text_name(frames, n, "ALBUMARTIST"@, 1);
    lemma_text_name(frames, n, "ALBUMARTISTSORT"@, 2);
    lemma_text_name(frames, n, "ALBUMSORT"@, 3);
    lemma_text_name(frames, n, "ARTISTSORT"@, 4);
    lemma_text_name(frames, n, "TITLESORT"@, 5);
    lemma_text_name(frames, n, "TITLE"@, 6);
    lemma_text_name(frames, n, "ALBUM"@, 7);
}

/// The same of composers, copyrights, genres, groupings, codes, labels and lyricists.
pub proof fn law_work_fields(frames: Seq<FrameModel>, n: NumbersModel)
    ensures
        values_named(vorbis_field_list(frames, n), "COMPOSER"@) == text_values(frames, "TCOM"@)
            + values_named(extended_fields(frames), "COMPOSER"@),
        values_named(vorbis_field_list(frames, n), "COPYRIGHT"@) == text_values(frames, "TCOP"@)
            + values_named(extended_fields(frames), "COPYRIGHT"@),
        values_named(vorbis_field_list(frames, n), "GENRE"@) == text_values(frames, "TCON"@)
            + values_named(extended_fields(frames), "GENRE"@),
        values_named(vorbis_field_list(frames, n), "GROUPING"@) == text_values(frames, "TIT1"@)
            + values_named(extended_fields(frames), "GROUPING"@),
        values_named(vorbis_field_list(frames, n), "ISRC"@) == text_values(frames, "TSRC"@)
            + values_named(extended_fields(frames), "ISRC"@),
        values_named(vorbis_field_list(frames, n), "LABEL"@) == text_values(frames, "TPUB"@)
            + values_named(extended_fields(frames), "LABEL"@),
        values_named(vorbis_field_list(frames, n), "LYRICIST"@) == text_values(frames, "TEXT"@)
            + values_named(extended_fields(frames), "LYRICIST"@),
{
    lemma_name_keys();
    lemma_text_name(frames, n, "COMPOSER"@, 8);
    lemma_text_name(frames, n, "COPYRIGHT"@, 9);
    lemma_text_name(frames, n, "GENRE"@, 10);
    lemma_text_name(frames, n, "GROUPING"@, 11);
    lemma_text_name(frames, n, "ISRC"@, 12);
    lemma_text_name(frames, n, "LABEL"@, 13);
    lemma_text_name(frames, n, "LYRICIST"@, 14);
}

/// The same of the other text frames. The encoder is given by two frames, the settings
/// first.
pub proof fn law_other_text_fields(frames: Seq<FrameModel>, n: NumbersModel)
    ensures
        values_named(vorbis_field_list(frames, n), "CONDUCTOR"@) == text_values(frames, "TPE3"@)
            + values_named(extended_fields(frames), "CONDUCTOR"@),
        values_named(vorbis_field_list(frames, n), "REMIXER"@) == text_values(frames, "TPE4"@)
            + values_named(extended_fields(frames), "REMIXER"@),
        values_named(vorbis_field_list(frames, n), "MOOD"@) == text_values(frames, "TMOO"@)
            + values_named(extended_fields(frames), "MOOD"@),
        values_named(vorbis_field_list(frames, n), "KEY"@) == text_values(frames, "TKEY"@)
            + values_named(extended_fields(frames), "KEY"@),
        values_named(vorbis_field_list(frames, n), "LANGUAGE"@) == text_values(frames, "TLAN"@)
            + values_named(extended_fields(frames), "LANGUAGE"@),
        values_named(vorbis_field_list(frames, n), "MEDIA"@) == text_values(frames, "TMED"@)
            + values_named(extended_fields(frames), "MEDIA"@),
        values_named(vorbis_field_list(frames, n), "ORIGINALFILENAME"@) == text_values(frames, "TOFN"@)
            + values_named(extended_fields(frames), "ORIGINALFILENAME"@),
        values_named(vorbis_field_list(frames, n), "RELEASEDATE"@) == text_values(frames, "TDRL"@)
            + values_named(extended_fields(frames), "RELEASEDATE"@),
        values_named(vorbis_field_list(frames, n), "ENCODER"@) == text_values(frames, "TSSE"@) + text_values(
            frames,
            "TENC"@,
        )
            + values_named(extended_fields(frames), "ENCODER"@),
{
    lemma_name_keys();
    lemma_text_name(frames, n, "CONDUCTOR"@, 17);
    lemma_text_name(frames, n, "REMIXER"@, 18);
    lemma_text_name(frames, n, "MOOD"@, 19);
    lemma_text_name(frames, n, "KEY"@, 20);
    lemma_text_name(frames, n, "LANGUAGE"@, 21);
    lemma_text_name(frames, n, "MEDIA"@, 22);
    lemma_text_name(frames, n, "ORIGINALFILENAME"@, 23);
    lemma_text_name(frames, n, "RELEASEDATE"@, 24);
    lemma_text_only(frames, n, "ENCODER"@);
    lemma_text_two(frames, id3_vorbis_map(), "ENCODER"@, 15, 16);
}

/// The values with a name that no text frame of the first table gives.
proof fn lemma_not_text(frames: Seq<FrameModel>, name: Seq<char>)
    requires
        is_other_name(name),
    ensures
        values_named(text_fields(frames, id3_vorbis_map()), name) == Seq::<Seq<char>>::empty(),
{
    lemma_name_keys();
    lemma_text_none(frames, id3_vorbis_map(), name);
}

/// The values with a name, where neither text frames nor people give it.
proof fn lemma_other_name(frames: Seq<FrameModel>, n: NumbersModel, name: Seq<char>)
    requires
        is_other_name(name),
        forall|j: int|
            0 <= j < id3_tipl_vorbis_map().len() ==> (#[trigger] id3_tipl_vorbis_map()[j]).1
                != name,
    ensures
        values_named(vorbis_field_list(frames, n), name) == values_named(number_fields(n), name)
            + values_named(single_fields(frames, n), name) + values_named(
            performer_fields(frames),
            name,
        ) + values_named(file_id_fields(frames), name) + values_named(link_fields(frames), name)
            + values_named(extended_fields(frames), name),
{
    lemma_all_named(frames, n, name);
    lemma_not_text(frames, name);
    lemma_involved_none(frames, name);
    assert(values_named(vorbis_field_list(frames, n), name) =~= values_named(
        number_fields(n),
        name,
    ) + values_named(single_fields(frames, n), name) + values_named(performer_fields(frames), name)
        + values_named(file_id_fields(frames), name) + values_named(link_fields(frames), name)
        + values_named(extended_fields(frames), name));
}

/// The values with a name, each part spelled out.
proof fn lemma_one_other(frames: Seq<FrameModel>, n: NumbersModel, name: Seq<char>)
    requires
        is_other_name(name),
        forall|j: int|
            0 <= j < id3_tipl_vorbis_map().len() ==> (#[trigger] id3_tipl_vorbis_map()[j]).1
                != name,
    ensures
        values_named(vorbis_field_list(frames, n), name) == only_if(
            "TRACKNUMBER"@ == name,
            number_values(n.track),
        ) + (only_if("TOTALTRACKS"@ == name, number_values(n.total_tracks)) + only_if(
            "TRACKTOTAL"@ == name,
            number_values(n.total_tracks),
        )) + only_if("DISCNUMBER"@ == name, number_values(n.disc)) + (only_if(
            "TOTALDISCS"@ == name,
            number_values(n.total_discs),
        ) + only_if("DISCTOTAL"@ == name, number_values(n.total_discs))) + (only_if(
            "DATE"@ == name,
            date_values(n),
        ) + only_if("ORIGINALDATE"@ == name, original_date_values(frames)) + (only_if(
            "MOVEMENTTOTAL"@ == name,
            whole_text(frames, "MVIN"@),
        ) + only_if("MOVEMENT"@ == name, whole_text(frames, "MVIN"@))) + only_if(
            "COMMENT"@ == name,
            comment_values(frames),
        ) + only_if("LYRICS"@ == name, lyrics_values(frames))) + only_if(
            "PERFORMER"@ == name,
            performers(frames),
        ) + only_if("MUSICBRAINZ_TRACKID"@ == name, track_ids(frames)) + (only_if(
            "LICENSE"@ == name,
            link_values(frames, "WCOP"@),
        ) + only_if("WEBSITE"@ == name, link_values(frames, "WOAR"@))) + values_named(
            extended_fields(frames),
            name,
        ),
{
    lemma_other_name(frames, n, name);
    lemma_numbers_named(n, name);
    lemma_singles_named(frames, n, name);
    lemma_performers_named(frames, name);
    lemma_ids_named(frames, name);
    lemma_links_named(frames, name);
}

/// The numbers of tracks and discs, in decimal, each under its name; the totals are
/// given under two names each.
pub proof fn law_number_fields(frames: Seq<FrameModel>, n: NumbersModel)
    ensures
        values_named(vorbis_field_list(frames, n), "TRACKNUMBER"@) == number_values(n.track)
            + values_named(extended_fields(frames), "TRACKNUMBER"@),
        values_named(vorbis_field_list(frames, n), "TOTALTRACKS"@) == number_values(n.total_tracks)
            + values_named(extended_fields(frames), "TOTALTRACKS"@),
        values_named(vorbis_field_list(frames, n), "TRACKTOTAL"@) == number_values(n.total_tracks)
            + values_named(extended_fields(frames), "TRACKTOTAL"@),
        values_named(vorbis_field_list(frames, n), "DISCNUMBER"@) == number_values(n.disc)
            + values_named(extended_fields(frames), "DISCNUMBER"@),
        values_named(vorbis_field_list(frames, n), "TOTALDISCS"@) == number_values(n.total_discs)
            + values_named(extended_fields(frames), "TOTALDISCS"@),
        values_named(vorbis_field_list(frames, n), "DISCTOTAL"@) == number_values(n.total_discs)
            + values_named(extended_fields(frames), "DISCTOTAL"@),
{
    lemma_name_keys();
    lemma_one_other(frames, n, "TRACKNUMBER"@);
    lemma_one_other(frames, n, "TOTALTRACKS"@);
    lemma_one_other(frames, n, "TRACKTOTAL"@);
    lemma_one_other(frames, n, "DISCNUMBER"@);
    lemma_one_other(frames, n, "TOTALDISCS"@);
    lemma_one_other(frames, n, "DISCTOTAL"@);
    assert(values_named(vorbis_field_list(frames, n), "TRACKNUMBER"@) =~= number_values(n.track)
        + values_named(extended_fields(frames), "TRACKNUMBER"@));
    assert(values_named(vorbis_field_list(frames, n), "TOTALTRACKS"@) =~= number_values(n.total_tracks)
        + values_named(extended_fields(frames), "TOTALTRACKS"@));
    assert(values_named(vorbis_field_list(frames, n), "TRACKTOTAL"@) =~= number_values(n.total_tracks)
        + values_named(extended_fields(frames), "TRACKTOTAL"@));
    assert(values_named(vorbis_field_list(frames, n), "DISCNUMBER"@) =~= number_values(n.disc)
        + values_named(extended_fields(frames), "DISCNUMBER"@));
    assert(values_named(vorbis_field_list(frames, n), "TOTALDISCS"@) =~= number_values(n.total_discs)
        + values_named(extended_fields(frames), "TOTALDISCS"@));
    assert(values_named(vorbis_field_list(frames, n), "DISCTOTAL"@) =~= number_values(n.total_discs)
        + values_named(extended_fields(frames), "DISCTOTAL"@));
}

/// The date, the original date, the movement under its two names, the comment and the
/// lyrics.
pub proof fn law_single_fields(frames: Seq<FrameModel>, n: NumbersModel)
    ensures
        values_named(vorbis_field_list(frames, n), "DATE"@) == date_values(n)
            + values_named(extended_fields(frames), "DATE"@),
        values_named(vorbis_field_list(frames, n), "ORIGINALDATE"@) == original_date_values(frames)
            + values_named(extended_fields(frames), "ORIGINALDATE"@),
        values_named(vorbis_field_list(frames, n), "MOVEMENTTOTAL"@) == whole_text(frames, "MVIN"@)
            + values_named(extended_fields(frames), "MOVEMENTTOTAL"@),
        values_named(vorbis_field_list(frames, n), "MOVEMENT"@) == whole_text(frames, "MVIN"@)
            + values_named(extended_fields(frames), "MOVEMENT"@),
        values_named(vorbis_field_list(frames, n), "COMMENT"@) == comment_values(frames)
            + values_named(extended_fields(frames), "COMMENT"@),
        values_named(vorbis_field_list(frames, n), "LYRICS"@) == lyrics_values(frames)
            + values_named(extended_fields(frames), "LYRICS"@),
{
    lemma_name_keys();
    lemma_one_other(frames, n, "DATE"@);
    lemma_one_other(frames, n, "ORIGINALDATE"@);
    lemma_one_other(frames, n, "MOVEMENTTOTAL"@);
    lemma_one_other(frames, n, "MOVEMENT"@);
    lemma_one_other(frames, n, "COMMENT"@);
    lemma_one_other(frames, n, "LYRICS"@);
    assert(values_named(vorbis_field_list(frames, n), "DATE"@) =~= date_values(n)
        + values_named(extended_fields(frames), "DATE"@));
    assert(values_named(vorbis_field_list(frames, n), "ORIGINALDATE"@) =~= original_date_values(frames)
        + values_named(extended_fields(frames), "ORIGINALDATE"@));
    assert(values_named(vorbis_field_list(frames, n), "MOVEMENTTOTAL"@) =~= whole_text(frames, "MVIN"@)
        + values_named(extended_fields(frames), "MOVEMENTTOTAL"@));
    assert(values_named(vorbis_field_list(frames, n), "MOVEMENT"@) =~= whole_text(frames, "MVIN"@)
        + values_named(extended_fields(frames), "MOVEMENT"@));
    assert(values_named(vorbis_field_list(frames, n), "COMMENT"@) =~= comment_values(frames)
        + values_named(extended_fields(frames), "COMMENT"@));
    assert(values_named(vorbis_field_list(frames, n), "LYRICS"@) =~= lyrics_values(frames)
        + values_named(extended_fields(frames), "LYRICS"@));
}

/// The performers, the MusicBrainz track identifiers, the license and the website.
pub proof fn law_performer_and_link_fields(frames: Seq<FrameModel>, n: NumbersModel)
    ensures
        values_named(vorbis_field_list(frames, n), "PERFORMER"@) == performers(frames)
            + values_named(extended_fields(frames), "PERFORMER"@),
        values_named(vorbis_field_list(frames, n), "MUSICBRAINZ_TRACKID"@) == track_ids(frames)
            + values_named(extended_fields(frames), "MUSICBRAINZ_TRACKID"@),
        values_named(vorbis_field_list(frames, n), "LICENSE"@) == link_values(frames, "WCOP"@)
            + values_named(extended_fields(frames), "LICENSE"@),
        values_named(vorbis_field_list(frames, n), "WEBSITE"@) == link_values(frames, "WOAR"@)
            + values_named(extended_fields(frames), "WEBSITE"@),
{
    lemma_name_keys();
    lemma_one_other(frames, n, "PERFORMER"@);
    lemma_one_other(frames, n, "MUSICBRAINZ_TRACKID"@);
    lemma_one_other(frames, n, "LICENSE"@);
    lemma_one_other(frames, n, "WEBSITE"@);
    assert(values_named(vorbis_field_list(frames, n), "PERFORMER"@) =~= performers(frames)
        + values_named(extended_fields(frames), "PERFORMER"@));
    assert(values_named(vorbis_field_list(frames, n), "MUSICBRAINZ_TRACKID"@) =~= track_ids(frames)
        + values_named(extended_fields(frames), "MUSICBRAINZ_TRACKID"@));
    assert(values_named(vorbis_field_list(frames, n), "LICENSE"@) =~= link_values(frames, "WCOP"@)
        + values_named(extended_fields(frames), "LICENSE"@));
    assert(values_named(vorbis_field_list(frames, n), "WEBSITE"@) =~= link_values(frames, "WOAR"@)
        + values_named(extended_fields(frames), "WEBSITE"@));
}

/// The people with the role that gives a name are all that has it, but for extended
/// texts.
proof fn lemma_role_name(frames: Seq<FrameModel>, n: NumbersModel, name: Seq<char>, i: int)
    requires
        0 <= i < id3_tipl_vorbis_map().len(),
        id3_tipl_vorbis_map()[i].1 == name,
        forall|j: int|
            0 <= j < id3_tipl_vorbis_map().len() && j != i ==> (
            #[trigger] id3_tipl_vorbis_map()[j]).1 != name,
    ensures
        values_named(vorbis_field_list(frames, n), name) == credited(
            frames,
            id3_tipl_vorbis_map()[i].0,
        ) + values_named(extended_fields(frames), name),
{
    lemma_name_keys();
    lemma_all_named(frames, n, name);
    lemma_not_text(frames, name);
    lemma_numbers_named(n, name);
    lemma_singles_named(frames, n, name);
    lemma_involved_one(frames, name, i);
    lemma_performers_named(frames, name);
    lemma_ids_named(frames, name);
    lemma_links_named(frames, name);
    assert(values_named(vorbis_field_list(frames, n), name) =~= credited(
        frames,
        id3_tipl_vorbis_map()[i].0,
    ) + values_named(extended_fields(frames), name));
}

/// The people involved: each of five roles has a field of its own, which names the
/// people in that role.
pub proof fn law_role_fields(frames: Seq<FrameModel>, n: NumbersModel)
    ensures
        values_named(vorbis_field_list(frames, n), "ARRANGER"@) == credited(frames, "arranger"@)
            + values_named(extended_fields(frames), "ARRANGER"@),
        values_named(vorbis_field_list(frames, n), "ENGINEER"@) == credited(frames, "engineer"@)
            + values_named(extended_fields(frames), "ENGINEER"@),
        values_named(vorbis_field_list(frames, n), "DJMIXER"@) == credited(frames, "dj-mix"@)
            + values_named(extended_fields(frames), "DJMIXER"@),
        values_named(vorbis_field_list(frames, n), "MIXER"@) == credited(frames, "mix"@)
            + values_named(extended_fields(frames), "MIXER"@),
        values_named(vorbis_field_list(frames, n), "PRODUCER"@) == credited(frames, "producer"@)
            + values_named(extended_fields(frames), "PRODUCER"@),
{
    lemma_name_keys();
    lemma_role_name(frames, n, "ARRANGER"@, 0);
    lemma_role_name(frames, n, "ENGINEER"@, 1);
    lemma_role_name(frames, n, "DJMIXER"@, 2);
    lemma_role_name(frames, n, "MIXER"@, 3);
    lemma_role_name(frames, n, "PRODUCER"@, 4);
}

/// The first description in a table that matches gives the name.
proof fn lemma_extended_match(
    description: Seq<char>,
    table: Seq<(Seq<char>, Seq<char>)>,
    i: int,
)
    requires
        0 <= i < table.len(),
        same_but_for_case(table[i].0, description),
        forall|j: int|
            0 <= j < i ==> !same_but_for_case((#[trigger] table[j]).0, description),
    ensures
        extended_name(description, table) == table[i].1,
    decreases table.len(),
{
    if i > 0 {
        let rest = table.skip(1);
        assert(!same_but_for_case(table[0].0, description));
        assert forall|j: int| 0 <= j < i - 1 implies !same_but_for_case(
            (#[trigger] rest[j]).0,
            description,
        ) by {
            assert(rest[j] == table[j + 1]);
        }
        lemma_extended_match(description, rest, i - 1);
    }
}

/// A description that no entry of a table matches is the name itself.
proof fn lemma_extended_plain(description: Seq<char>, table: Seq<(Seq<char>, Seq<char>)>)
    requires
        forall|j: int|
            0 <= j < table.len() ==> !same_but_for_case((#[trigger] table[j]).0, description),
    ensures
        extended_name(description, table) == description,
    decreases table.len(),
{
    if table.len() > 0 {
        let rest = table.skip(1);
        assert(!same_but_for_case(table[0].0, description));
        assert forall|j: int| 0 <= j < rest.len() implies !same_but_for_case(
            (#[trigger] rest[j]).0,
            description,
        ) by {
            assert(rest[j] == table[j + 1]);
        }
        lemma_extended_plain(description, rest);
    }
}

/// The descriptions with a name of their own differ in more than case.
proof fn lemma_descriptions_differ()
    ensures
        forall|i: int, j: int|
            #![trigger id3_txxx_vorbis_map()[i], id3_txxx_vorbis_map()[j]]
            0 <= i < j < 7 ==> !same_but_for_case(
                id3_txxx_vorbis_map()[i].0,
                id3_txxx_vorbis_map()[j].0,
            ),
        id3_txxx_vorbis_map().len() == 7,
{
    reveal_strlit("REPLAYGAIN_TRACK_GAIN");
    reveal_strlit("REPLAYGAIN_ALBUM_GAIN");
    reveal_strlit("REPLAYGAIN_TRACK_PEAK");
    reveal_strlit("REPLAYGAIN_ALBUM_PEAK");
    reveal_strlit("ASIN");
    reveal_strlit("BARCODE");
    reveal_strlit("CATALOGNUMBER");
    let map = id3_txxx_vorbis_map();
    assert forall|i: int, j: int|
        #![trigger map[i], map[j]]
        0 <= i < j < 7 implies !same_but_for_case(map[i].0, map[j].0) by {
        let (a, b) = (ascii_lowercase(map[i].0), ascii_lowercase(map[j].0));
        if a.len() == 21 && b.len() == 21 {
            assert(a[11] != b[11] || a[17] != b[17]);
        } else {
            assert(a.len() != b.len());
        }
    }
}

/// The name of the field for an extended text: seven names stand for all descriptions
/// that are the same but for case, and any other description is the name itself.
pub proof fn law_extended_name(description: Seq<char>)
    ensures
        same_but_for_case(description, "REPLAYGAIN_TRACK_GAIN"@) ==> extended_name(
            description,
            id3_txxx_vorbis_map(),
        ) == "REPLAYGAIN_TRACK_GAIN"@,
        same_but_for_case(description, "REPLAYGAIN_ALBUM_GAIN"@) ==> extended_name(
            description,
            id3_txxx_vorbis_map(),
        ) == "REPLAYGAIN_ALBUM_GAIN"@,
        same_but_for_case(description, "REPLAYGAIN_TRACK_PEAK"@) ==> extended_name(
            description,
            id3_txxx_vorbis_map(),
        ) == "REPLAYGAIN_TRACK_PEAK"@,
        same_but_for_case(description, "REPLAYGAIN_ALBUM_PEAK"@) ==> extended_name(
            description,
            id3_txxx_vorbis_map(),
        ) == "REPLAYGAIN_ALBUM_PEAK"@,
        same_but_for_case(description, "ASIN"@) ==> extended_name(
            description,
            id3_txxx_vorbis_map(),
        ) == "ASIN"@,
        same_but_for_case(description, "BARCODE"@) ==> extended_name(
            description,
            id3_txxx_vorbis_map(),
        ) == "BARCODE"@,
        same_but_for_case(description, "CATALOGNUMBER"@) ==> extended_name(
            description,
            id3_txxx_vorbis_map(),
        ) == "CATALOGNUMBER"@,
        !same_but_for_case(description, "REPLAYGAIN_TRACK_GAIN"@)
            && !same_but_for_case(description, "REPLAYGAIN_ALBUM_GAIN"@)
            && !same_but_for_case(description, "REPLAYGAIN_TRACK_PEAK"@)
            && !same_but_for_case(description, "REPLAYGAIN_ALBUM_PEAK"@)
            && !same_but_for_case(description, "ASIN"@)
            && !same_but_for_case(description, "BARCODE"@)
            && !same_but_for_case(description, "CATALOGNUMBER"@)
            ==> extended_name(description, id3_txxx_vorbis_map()) == description,
{
    lemma_descriptions_differ();
    let map = id3_txxx_vorbis_map();
    assert(map[0].0 == "REPLAYGAIN_TRACK_GAIN"@);
    assert(map[1].0 == "REPLAYGAIN_ALBUM_GAIN"@);
    assert(map[2].0 == "REPLAYGAIN_TRACK_PEAK"@);
    assert(map[3].0 == "REPLAYGAIN_ALBUM_PEAK"@);
    assert(map[4].0 == "ASIN"@);
    assert(map[5].0 == "BARCODE"@);
    assert(map[6].0 == "CATALOGNUMBER"@);
    if exists|i: int| 0 <= i < 7 && same_but_for_case(map[i].0, description) {
        let i = choose|i: int| 0 <= i < 7 && same_but_for_case(map[i].0, description);
        assert forall|j: int| 0 <= j < i implies !same_but_for_case(
            (#[trigger] map[j]).0,
            description,
        ) by {
            assert(!same_but_for_case(map[j].0, map[i].0));
        }
        lemma_extended_match(description, map, i);
        assert forall|j: int| 0 <= j < 7 && j != i implies !same_but_for_case(
            (#[trigger] map[j]).0,
            description,
        ) by {
            if j < i {
                assert(!same_but_for_case(map[j].0, map[i].0));
            } else {
                assert(!same_but_for_case(map[i].0, map[j].0));
            }
        }
    } else {
        lemma_extended_plain(description, map);
    }
}

/// The fields of extended texts, frame by frame: one that has a description gives one
/// field for each of its values, after those of the frames before it; any other
/// frame gives none.
pub proof fn law_extended_fields(frames: Seq<FrameModel>, f: FrameModel)
    ensures
        extended_fields(Seq::empty()) == Seq::<(Seq<char>, Seq<char>)>::empty(),
        match f.content {
            ContentModel::ExtendedText(d, v) => if d.len() > 0 {
                let before = extended_fields(frames);
                let after = extended_fields(frames.push(f));
                &&& after.len() == before.len() + values_of(v).len()
                &&& after.take(before.len() as int) == before
                &&& forall|i: int|
                    0 <= i < values_of(v).len() ==> #[trigger] after[before.len() + i] == (
                        extended_name(d, id3_txxx_vorbis_map()),
                        values_of(v)[i],
                    )
            } else {
                extended_fields(frames.push(f)) == extended_fields(frames)
            },
            _ => extended_fields(frames.push(f)) == extended_fields(frames),
        },
{
    assert(frames.push(f).drop_last() =~= frames);
    let (before, after) = (extended_fields(frames), extended_fields(frames.push(f)));
    if let ContentModel::ExtendedText(d, v) = f.content {
        if d.len() > 0 {
            assert(after.take(before.len() as int) =~= before);
        }
    }
}

/// Whether a name is one of those that frames other than extended texts give.
pub open spec fn is_field_name(name: Seq<char>) -> bool {
    ||| name == "ARTIST"@
    ||| name == "ALBUMARTIST"@
    ||| name == "ALBUMARTISTSORT"@
    ||| name == "ALBUMSORT"@
    ||| name == "ARTISTSORT"@
    ||| name == "TITLESORT"@
    ||| name == "TITLE"@
    ||| name == "ALBUM"@
    ||| name == "COMPOSER"@
    ||| name == "COPYRIGHT"@
    ||| name == "GENRE"@
    ||| name == "GROUPING"@
    ||| name == "ISRC"@
    ||| name == "LABEL"@
    ||| name == "LYRICIST"@
    ||| name == "ENCODER"@
    ||| name == "CONDUCTOR"@
    ||| name == "REMIXER"@
    ||| name == "MOOD"@
    ||| name == "KEY"@
    ||| name == "LANGUAGE"@
    ||| name == "MEDIA"@
    ||| name == "ORIGINALFILENAME"@
    ||| name == "RELEASEDATE"@
    ||| name == "TRACKNUMBER"@
    ||| name == "TOTALTRACKS"@
    ||| name == "TRACKTOTAL"@
    ||| name == "DISCNUMBER"@
    ||| name == "TOTALDISCS"@
    ||| name == "DISCTOTAL"@
    ||| name == "DATE"@
    ||| name == "ORIGINALDATE"@
    ||| name == "MOVEMENTTOTAL"@
    ||| name == "MOVEMENT"@
    ||| name == "COMMENT"@
    ||| name == "LYRICS"@
    ||| name == "ARRANGER"@
    ||| name == "ENGINEER"@
    ||| name == "DJMIXER"@
    ||| name == "MIXER"@
    ||| name == "PRODUCER"@
    ||| name == "PERFORMER"@
    ||| name == "MUSICBRAINZ_TRACKID"@
    ||| name == "LICENSE"@
    ||| name == "WEBSITE"@
}

/// Whether all fields have such names.
spec fn well_named(fields: Seq<(Seq<char>, Seq<char>)>) -> bool {
    forall|i: int| 0 <= i < fields.len() ==> is_field_name((#[trigger] fields[i]).0)
}

/// The fields of text frames have such names.
proof fn lemma_text_well_named(frames: Seq<FrameModel>, table: Seq<(Seq<char>, Seq<char>)>)
    requires
        forall|j: int| 0 <= j < table.len() ==> is_field_name((#[trigger] table[j]).1),
    ensures
        well_named(text_fields(frames, table)),
    decreases table.len(),
{
    if table.len() > 0 {
        let rest = table.drop_last();
        assert forall|j: int| 0 <= j < rest.len() implies is_field_name((#[trigger] rest[j]).1) by {
            assert(rest[j] == table[j]);
        }
        lemma_text_well_named(frames, rest);
        assert(is_field_name(table[table.len() - 1].1));
    }
}

/// The fields of one person have such names.
proof fn lemma_role_well_named(
    person: (Seq<char>, Seq<char>),
    table: Seq<(Seq<char>, Seq<char>)>,
)
    requires
        forall|j: int| 0 <= j < table.len() ==> is_field_name((#[trigger] table[j]).1),
    ensures
        well_named(role_fields(person, table)),
    decreases table.len(),
{
    if table.len() > 0 {
        let rest = table.drop_last();
        assert forall|j: int| 0 <= j < rest.len() implies is_field_name((#[trigger] rest[j]).1) by {
            assert(rest[j] == table[j]);
        }
        lemma_role_well_named(person, rest);
        assert(is_field_name(table[table.len() - 1].1));
    }
}

/// The fields of people have such names.
proof fn lemma_people_well_named(people: Seq<(Seq<char>, Seq<char>)>)
    ensures
        well_named(people_fields(people)),
    decreases people.len(),
{
    if people.len() > 0 {
        lemma_people_well_named(people.drop_last());
        lemma_role_well_named(people.last(), id3_tipl_vorbis_map());
    }
}

/// The fields that come frame by frame have such names.
proof fn lemma_frames_well_named(frames: Seq<FrameModel>)
    ensures
        well_named(involved_fields(frames)),
        well_named(performer_fields(frames)),
        well_named(file_id_fields(frames)),
    decreases frames.len(),
{
    if frames.len() > 0 {
        lemma_frames_well_named(frames.drop_last());
        if let ContentModel::People(people) = frames.last().content {
            lemma_people_well_named(people);
        }
    }
}

/// There are no other fields: the list ends with those of extended texts, and every
/// field before them has one of the names above.
pub proof fn law_no_other_fields(frames: Seq<FrameModel>, n: NumbersModel)
    ensures
        vorbis_field_list(frames, n).len() >= extended_fields(frames).len(),
        ({
            let all = vorbis_field_list(frames, n);
            let others = all.len() - extended_fields(frames).len();
            &&& all.skip(others) == extended_fields(frames)
            &&& forall|i: int| 0 <= i < others ==> is_field_name((#[trigger] all[i]).0)
        }),
{
    lemma_text_well_named(frames, id3_vorbis_map());
    lemma_frames_well_named(frames);
    assert(well_named(number_fields(n)));
    assert(well_named(single_fields(frames, n)));
    assert(well_named(link_fields(frames)));
    let all = vorbis_field_list(frames, n);
    let others = all.len() - extended_fields(frames).len();
    assert(all.skip(others) =~= extended_fields(frames));
}

} // verus!
