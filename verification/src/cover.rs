//! Cover pictures: from an ID3 tag to a FLAC file.
use vstd::prelude::*;
use crate::id3_frames::{
    frame_views, ContentModel, CoverKind, FrameModel, Id3Content, Id3Frame, Id3Picture,
};

verus! {

/// A picture for a FLAC file.
pub struct CoverPicture {
    pub kind: CoverKind,
    pub media_type: String,
    pub description: String,
    pub width: u32,
    pub height: u32,
    pub color_depth: u32,
    pub colors_used: Option<u32>,
    pub data: Vec<u8>,
}

/// What is read out of the data of a picture.
#[verifier::ext_equal]
pub struct MetricsModel {
    pub media_type: Seq<char>,
    pub width: u32,
    pub height: u32,
    pub color_depth: u32,
    pub colors_used: Option<u32>,
}

/// A picture in a tag, mathematically.
#[verifier::ext_equal]
pub struct CoverModel {
    pub kind: CoverKind,
    pub description: Seq<char>,
    pub data: Seq<u8>,
}

/// A picture for a FLAC file, mathematically.
#[verifier::ext_equal]
pub struct PictureModel {
    pub cover: CoverModel,
    pub metrics: MetricsModel,
}

impl View for CoverPicture {
    type V = PictureModel;

    open spec fn view(&self) -> PictureModel {
        PictureModel {
            cover: CoverModel {
                kind: self.kind,
                description: self.description@,
                data: self.data@,
            },
            metrics: MetricsModel {
                media_type: self.media_type@,
                width: self.width,
                height: self.height,
                color_depth: self.color_depth,
                colors_used: self.colors_used,
            },
        }
    }
}

impl View for Id3Picture {
    type V = CoverModel;

    open spec fn view(&self) -> CoverModel {
        CoverModel { kind: self.kind, description: self.description@, data: self.data@ }
    }
}

/// What a list of covers says.
pub open spec fn cover_views(v: Seq<Id3Picture>) -> Seq<CoverModel> {
    Seq::new(v.len(), |i: int| v[i]@)
}

/// What a list of pictures says.
pub open spec fn picture_views(v: Seq<CoverPicture>) -> Seq<PictureModel> {
    Seq::new(v.len(), |i: int| v[i]@)
}

/// What a PNG image begins with: its signature, and the length and the type of
/// its header chunk.
pub open spec fn png_head() -> Seq<u8> {
    seq![
        0x89u8,
        0x50,
        0x4E,
        0x47,
        0x0D,
        0x0A,
        0x1A,
        0x0A,
        0,
        0,
        0,
        13,
        0x49,
        0x48,
        0x44,
        0x52,
    ]
}

/// Whether the data begin as a PNG image does, with a header chunk.
pub open spec fn has_png_header(data: Seq<u8>) -> bool {
    data.len() >= 33 && data.take(16) == png_head()
}

/// The number of samples in a pixel of a PNG image, by its color type.
pub open spec fn png_samples(color_type: u8) -> int {
    if color_type == 2 {
        3
    } else if color_type == 4 {
        2
    } else if color_type == 6 {
        4
    } else {
        1
    }
}

/// Whether a JPEG marker begins a frame header.
pub open spec fn is_frame_marker(marker: u8) -> bool {
    0xC0 <= marker <= 0xCF && marker != 0xC4 && marker != 0xC8 && marker != 0xCC
}

/// Where the first frame header of a JPEG image is, looking from `pos` on: the
/// segments before it are passed over by their lengths.
pub open spec fn jpeg_frame(data: Seq<u8>, pos: int) -> Option<int>
    decreases data.len() - pos,
{
    if pos < 0 || pos + 4 > data.len() || data[pos] != 0xFF {
        None
    } else if is_frame_marker(data[pos + 1]) {
        Some(pos)
    } else {
        let length = data[pos + 2] * 0x100 + data[pos + 3];
        if length < 2 || pos + 2 + length > data.len() {
            None
        } else {
            jpeg_frame(data, pos + 2 + length)
        }
    }
}

/// Whether the color depth of a picture, if it is a PNG or a JPEG image that
/// gives one, fits in a byte. That of any real image does.
pub open spec fn color_depth_fits(data: Seq<u8>) -> bool {
    &&& has_png_header(data) ==> data[24] * png_samples(data[25]) <= 0xFF
    &&& data.len() >= 3 && data[0] == 0xFF && data[1] == 0xD8 && data[2] == 0xFF ==> match jpeg_frame(
        data,
        2,
    ) {
        Some(pos) => pos + 10 <= data.len() ==> data[pos + 4] * data[pos + 9] <= 0xFF,
        None => true,
    }
}

/// Whether the data begin as a PNG image does, with a header chunk.
fn png_header_present(data: &Vec<u8>) -> (r: bool)
    ensures
        r == has_png_header(data@),
{
    if data.len() < 33 {
        return false;
    }
    let head: [u8; 16] = [
        0x89,
        0x50,
        0x4E,
        0x47,
        0x0D,
        0x0A,
        0x1A,
        0x0A,
        0,
        0,
        0,
        13,
        0x49,
        0x48,
        0x44,
        0x52,
    ];
    assert(head@ =~= png_head());
    let mut i: usize = 0;
    while i < 16
        invariant
            i <= 16,
            head@ == png_head(),
            png_head().len() == 16,
            data@.len() >= 33,
            forall|j: int| 0 <= j < i ==> data@[j] == #[trigger] png_head()[j],
        decreases 16 - i,
    {
        if data[i] != head[i] {
            assert(data@.take(16)[i as int] == data@[i as int]);
            return false;
        }
        i = i + 1;
    }
    assert(data@.take(16) =~= png_head());
    true
}

/// Whether the color depth of a picture fits in a byte.
pub fn is_color_depth_fitting(data: &Vec<u8>) -> (r: bool)
    ensures
        r == color_depth_fits(data@),
{
    if png_header_present(data) {
        assert(data@.take(16)[0] == data@[0]);
        let samples: u32 = if data[25] == 2 {
            3
        } else if data[25] == 4 {
            2
        } else if data[25] == 6 {
            4
        } else {
            1
        };
        return data[24] as u32 * samples <= 0xFF;
    }
    let n: usize = data.len();
    if n < 3 || data[0] != 0xFF || data[1] != 0xD8 || data[2] != 0xFF {
        return true;
    }
    let mut pos: usize = 2;
    loop
        invariant
            n == data@.len(),
            n >= 3,
            !has_png_header(data@),
            data@[0] == 0xFF && data@[1] == 0xD8 && data@[2] == 0xFF,
            2 <= pos <= n,
            jpeg_frame(data@, pos as int) == jpeg_frame(data@, 2),
        decreases n - pos,
    {
        if n - pos < 4 || data[pos] != 0xFF {
            return true;
        }
        let marker: u8 = data[pos + 1];
        if 0xC0 <= marker && marker <= 0xCF && marker != 0xC4 && marker != 0xC8 && marker != 0xCC {
            if n - pos < 10 {
                return true;
            }
            let precision: u32 = data[pos + 4] as u32;
            let components: u32 = data[pos + 9] as u32;
            assert(precision * components <= 0xFF * 0xFF) by (nonlinear_arith)
                requires
                    precision <= 0xFF,
                    components <= 0xFF,
            ;
            return precision * components <= 0xFF;
        }
        let length: usize = data[pos + 2] as usize * 0x100 + data[pos + 3] as usize;
        if length < 2 {
            return true;
        }
        if n - pos - 2 < length {
            return true;
        }
        pos = pos + 2 + length;
    }
}

/// What `flac_codec::metadata::Picture::new` reads out of the data of a picture:
/// media type, size and colors; none if the data are no PNG, JPEG or GIF image.
pub uninterp spec fn picture_metrics(data: Seq<u8>) -> Option<MetricsModel>;

/// `flac_codec::metadata::Picture::new`: the picture has the kind, the
/// description and the data it is given, and the metrics of the data. It is not
/// called for data of which it cannot compute the color depth.
#[verifier::external_body]
fn new_picture(kind: CoverKind, description: String, data: Vec<u8>) -> (r: Option<CoverPicture>)
    requires
        color_depth_fits(data@),
    ensures
        match r {
            Some(p) => p@.cover == (CoverModel {
                kind,
                description: description@,
                data: data@,
            }) && picture_metrics(data@) == Some(p@.metrics),
            None => picture_metrics(data@) is None,
        },
{
    let t = match kind {
        CoverKind::Front => flac_codec::metadata::PictureType::FrontCover,
        CoverKind::Back => flac_codec::metadata::PictureType::BackCover,
        CoverKind::Neither => flac_codec::metadata::PictureType::Other,
    };
    flac_codec::metadata::Picture::new(t, description, data).ok().map(|p| CoverPicture {
        kind,
        media_type: p.media_type,
        description: p.description,
        width: p.width,
        height: p.height,
        color_depth: p.color_depth,
        colors_used: p.colors_used.map(|c| c.get()),
        data: p.data,
    })
}

/// The front and back covers among the frames of a tag, in order.
pub open spec fn covers_of(frames: Seq<FrameModel>) -> Seq<CoverModel>
    decreases frames.len(),
{
    if frames.len() == 0 {
        Seq::empty()
    } else {
        let before = covers_of(frames.drop_last());
        match frames.last().content {
            ContentModel::Picture(kind, description, data) => if kind != CoverKind::Neither {
                before.push(CoverModel { kind, description, data })
            } else {
                before
            },
            _ => before,
        }
    }
}

/// Those of the covers that are images of a known format, with their metrics.
pub open spec fn pictures_of(covers: Seq<CoverModel>) -> Seq<PictureModel>
    decreases covers.len(),
{
    if covers.len() == 0 {
        Seq::empty()
    } else {
        let before = pictures_of(covers.drop_last());
        match picture_metrics(covers.last().data) {
            Some(metrics) => before.push(PictureModel { cover: covers.last(), metrics }),
            None => before,
        }
    }
}

/// Whether the color depths of all covers fit in a byte.
pub open spec fn covers_fit(covers: Seq<CoverModel>) -> bool {
    forall|i: int| 0 <= i < covers.len() ==> color_depth_fits(#[trigger] covers[i].data)
}

/// The front and back covers among the frames of a tag, in order.
pub fn find_covers(frames: &Vec<Id3Frame>) -> (r: Vec<Id3Picture>)
    ensures
        cover_views(r@) == covers_of(frame_views(frames@)),
{
    let ghost all = frame_views(frames@);
    let mut r: Vec<Id3Picture> = Vec::new();
    let mut k: usize = 0;
    assert(cover_views(r@) =~= covers_of(all.take(0)));
    while k < frames.len()
        invariant
            k <= frames@.len(),
            all == frame_views(frames@),
            cover_views(r@) == covers_of(all.take(k as int)),
        decreases frames@.len() - k,
    {
        let ghost before = r@;
        assert(all.take(k + 1).drop_last() =~= all.take(k as int));
        assert(all.take(k + 1).last() == frames@[k as int]@);
        if let Id3Content::Picture(p) = &frames[k].content {
            if p.kind != CoverKind::Neither {
                let cover = Id3Picture {
                    kind: p.kind,
                    description: p.description.clone(),
                    data: p.data.clone(),
                };
                assert(cover.data@ =~= p.data@);
                r.push(cover);
                assert(cover_views(r@) =~= cover_views(before).push(cover@));
            }
        }
        k = k + 1;
    }
    assert(all.take(frames@.len() as int) =~= all);
    r
}

/// Whether the color depths of all covers fit in a byte.
pub fn are_covers_fitting(covers: &Vec<Id3Picture>) -> (r: bool)
    ensures
        r == covers_fit(cover_views(covers@)),
{
    let ghost all = cover_views(covers@);
    let mut k: usize = 0;
    while k < covers.len()
        invariant
            k <= covers@.len(),
            all == cover_views(covers@),
            forall|i: int| 0 <= i < k ==> color_depth_fits(#[trigger] all[i].data),
        decreases covers@.len() - k,
    {
        assert(all[k as int].data == covers@[k as int].data@);
        if !is_color_depth_fitting(&covers[k].data) {
            return false;
        }
        k = k + 1;
    }
    true
}

/// Makes pictures of the covers that are images of a known format.
pub fn make_pictures(covers: &Vec<Id3Picture>) -> (r: Vec<CoverPicture>)
    requires
        covers_fit(cover_views(covers@)),
    ensures
        picture_views(r@) == pictures_of(cover_views(covers@)),
{
    let ghost all = cover_views(covers@);
    let mut r: Vec<CoverPicture> = Vec::new();
    let mut k: usize = 0;
    assert(picture_views(r@) =~= pictures_of(all.take(0)));
    while k < covers.len()
        invariant
            k <= covers@.len(),
            all == cover_views(covers@),
            covers_fit(all),
            picture_views(r@) == pictures_of(all.take(k as int)),
        decreases covers@.len() - k,
    {
        let ghost before = r@;
        assert(all.take(k + 1).drop_last() =~= all.take(k as int));
        assert(all.take(k + 1).last() == covers@[k as int]@);
        assert(color_depth_fits(all[k as int].data));
        let c: &Id3Picture = &covers[k];
        let data: Vec<u8> = c.data.clone();
        assert(data@ =~= c.data@);
        if let Some(p) = new_picture(c.kind, c.description.clone(), data) {
            assert(p@ == (PictureModel { cover: all[k as int], metrics: p@.metrics }));
            r.push(p);
            assert(picture_views(r@) =~= picture_views(before).push(p@));
        }
        k = k + 1;
    }
    assert(all.take(covers@.len() as int) =~= all);
    r
}

/// The covers among frames: those of two lists of frames are those of the first, then
/// those of the second. A frame gives a cover exactly if it holds a picture of the
/// front or the back, and the cover is that picture.
pub proof fn law_covers(a: Seq<FrameModel>, b: Seq<FrameModel>, f: FrameModel)
    ensures
        covers_of(a + b) == covers_of(a) + covers_of(b),
        covers_of(seq![f]) == match f.content {
            ContentModel::Picture(CoverKind::Front, description, data) => seq![
                CoverModel { kind: CoverKind::Front, description, data },
            ],
            ContentModel::Picture(CoverKind::Back, description, data) => seq![
                CoverModel { kind: CoverKind::Back, description, data },
            ],
            _ => Seq::<CoverModel>::empty(),
        },
        covers_of(Seq::empty()) == Seq::<CoverModel>::empty(),
    decreases b.len(),
{
    reveal_with_fuel(covers_of, 2);
    assert(seq![f].drop_last() =~= Seq::empty());
    if b.len() == 0 {
        assert(a + b =~= a);
        assert(covers_of(a) + covers_of(b) =~= covers_of(a));
    } else {
        law_covers(a, b.drop_last(), f);
        assert((a + b).drop_last() =~= a + b.drop_last());
        assert(covers_of(a + b) =~= covers_of(a) + covers_of(b));
    }
}

/// The pictures made of covers: those of two lists of covers are those of the first,
/// then those of the second. A cover gives a picture exactly if its data are an
/// image of a known format, and keeps its kind, description and data.
pub proof fn law_pictures(a: Seq<CoverModel>, b: Seq<CoverModel>, c: CoverModel)
    ensures
        pictures_of(a + b) == pictures_of(a) + pictures_of(b),
        pictures_of(seq![c]) == match picture_metrics(c.data) {
            Some(metrics) => seq![PictureModel { cover: c, metrics }],
            None => Seq::<PictureModel>::empty(),
        },
        pictures_of(Seq::empty()) == Seq::<PictureModel>::empty(),
    decreases b.len(),
{
    reveal_with_fuel(pictures_of, 2);
    assert(seq![c].drop_last() =~= Seq::empty());
    if b.len() == 0 {
        assert(a + b =~= a);
        assert(pictures_of(a) + pictures_of(b) =~= pictures_of(a));
    } else {
        law_pictures(a, b.drop_last(), c);
        assert((a + b).drop_last() =~= a + b.drop_last());
        assert(pictures_of(a + b) =~= pictures_of(a) + pictures_of(b));
    }
}

/// The color depth of a PNG image fits if its bit depth, times the samples in a pixel,
/// is at most 255: three for true color, two for gray with alpha, four for true
/// color with alpha, and one otherwise.
pub proof fn law_png_depth(data: Seq<u8>)
    requires
        data.len() >= 33,
        data[0] == 0x89 && data[1] == 0x50 && data[2] == 0x4E && data[3] == 0x47,
        data[4] == 0x0D && data[5] == 0x0A && data[6] == 0x1A && data[7] == 0x0A,
        data[8] == 0 && data[9] == 0 && data[10] == 0 && data[11] == 13,
        data[12] == 0x49 && data[13] == 0x48 && data[14] == 0x44 && data[15] == 0x52,
    ensures
        color_depth_fits(data) <==> data[24] * (if data[25] == 2 {
            3int
        } else if data[25] == 4 {
            2
        } else if data[25] == 6 {
            4
        } else {
            1
        }) <= 255,
{
    assert(data.take(16) =~= png_head());
}

/// The color depth of a JPEG image whose first segment is a frame header fits if its
/// precision, times its components, is at most 255. A first segment of another kind
/// is passed over by its length, and the next one counts.
pub proof fn law_jpeg_depth(data: Seq<u8>)
    requires
        data.len() >= 12,
        data[0] == 0xFF && data[1] == 0xD8 && data[2] == 0xFF,
    ensures
        ({
            let marker = data[3];
            let length = 0x100 * data[4] + data[5];
            let frame = 0xC0 <= marker <= 0xCF && marker != 0xC4 && marker != 0xC8 && marker
                != 0xCC;
            &&& frame ==> (color_depth_fits(data) <==> data[6] * data[11] <= 255)
            &&& !frame && length >= 2 && 4 + length + 10 <= data.len() && data[4 + length] == 0xFF
                && 0xC0 <= data[5 + length] <= 0xC3 ==> (color_depth_fits(data) <==> data[8
                + length] * data[13 + length] <= 255)
        }),
{
    if data.len() >= 33 {
        assert(data.take(16)[0] == data[0]);
    }
    reveal_with_fuel(jpeg_frame, 2);
}

/// Other data have no color depth that would not fit.
pub proof fn law_other_depth(data: Seq<u8>)
    requires
        data.len() == 0 || (data[0] != 0xFF && data[0] != 0x89),
    ensures
        color_depth_fits(data),
{
    if data.len() >= 33 {
        assert(data.take(16)[0] == data[0]);
    }
}

} // verus!
