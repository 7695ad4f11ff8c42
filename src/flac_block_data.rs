//! Payloads of FLAC metadata blocks, one variant per block type, with their byte layouts.
use vstd::prelude::*;
use vstd::utf8::*;
use crate::bytes::{be_seq, be_val, le_seq, read_be, read_le, write_be, write_le, lemma_be_seq_len, lemma_be_val_seq, lemma_be_seq_val, lemma_le_seq_val, lemma_be_val_bound, lemma_le_val_bound, pow256};
use crate::text::{TextEncoding, text_bytes, decode_text, append_slice};
use crate::id3_frame_value::copy_bytes;
use crate::vorbis::{VorbisVector, VorbisModel, add_spec, model_wf, upper};

verus! {

/// The seven block types.
#[derive(Copy, Clone, Debug, PartialEq, Eq, Structural)]
pub enum FlacMetadataBlockType {
    STREAMINFO,
    PADDING,
    APPLICATION,
    SEEKTABLE,
    VORBISCOMMENT,
    CUESHEET,
    PICTURE,
}

impl FlacMetadataBlockType {
    pub open spec fn raw(self) -> u8 {
        match self {
            FlacMetadataBlockType::STREAMINFO => 0,
            FlacMetadataBlockType::PADDING => 1,
            FlacMetadataBlockType::APPLICATION => 2,
            FlacMetadataBlockType::SEEKTABLE => 3,
            FlacMetadataBlockType::VORBISCOMMENT => 4,
            FlacMetadataBlockType::CUESHEET => 5,
            FlacMetadataBlockType::PICTURE => 6,
        }
    }

    /// The block type that the seven-bit code `value` stands for.
    pub fn from_raw_value(value: u8) -> (r: Option<FlacMetadataBlockType>)
        ensures
            value <= 6 ==> (r matches Some(t) && t.raw() == value),
            value > 6 ==> r is None,
    {
        match value {
            0 => Some(FlacMetadataBlockType::STREAMINFO),
            1 => Some(FlacMetadataBlockType::PADDING),
            2 => Some(FlacMetadataBlockType::APPLICATION),
            3 => Some(FlacMetadataBlockType::SEEKTABLE),
            4 => Some(FlacMetadataBlockType::VORBISCOMMENT),
            5 => Some(FlacMetadataBlockType::CUESHEET),
            6 => Some(FlacMetadataBlockType::PICTURE),
            _ => None,
        }
    }

    /// The seven-bit code of this block type.
    pub fn raw_value(&self) -> (r: u8)
        ensures
            r == self.raw(),
    {
        match self {
            FlacMetadataBlockType::STREAMINFO => 0,
            FlacMetadataBlockType::PADDING => 1,
            FlacMetadataBlockType::APPLICATION => 2,
            FlacMetadataBlockType::SEEKTABLE => 3,
            FlacMetadataBlockType::VORBISCOMMENT => 4,
            FlacMetadataBlockType::CUESHEET => 5,
            FlacMetadataBlockType::PICTURE => 6,
        }
    }
}

/// The fixed 34-byte header of a FLAC stream.
pub struct StreamInfoBlock {
    pub min_block_size: u16,
    pub max_block_size: u16,
    /// A 24-bit value.
    pub min_frame_size: u32,
    /// A 24-bit value.
    pub max_frame_size: u32,
    /// Sample rate, channels, bits per sample and total samples, packed in 64 bits.
    pub sample_info: u64,
    /// The 16 bytes of the MD5 signature of the audio.
    pub md5_signature: Vec<u8>,
}

/// A padding block: only its length matters.
pub struct PaddingBlock {
    pub nb_bytes: usize,
}

/// An application block: a four-byte registered identifier and opaque data.
pub struct ApplicationBlock {
    pub app_id: u32,
    pub data: Vec<u8>,
}

/// One 18-byte seek point.
pub struct SeekPoint {
    pub sample_number_of_first_sample: u64,
    pub offset: u64,
    pub number_of_sample: u16,
}

/// A seek table.
pub struct SeekTableBlock {
    pub seek_points: Vec<SeekPoint>,
}

/// A Vorbis comment block: a vendor string and the fields.
pub struct VorbisCommentBlock {
    pub vendor_name: String,
    pub comments: VorbisVector,
}

/// One index point of a cue-sheet track.
pub struct CueSheetTrackIndex {
    pub offset: u64,
    pub index_point_number: u8,
}

/// One track of a cue sheet.
pub struct CueSheetTrack {
    pub track_offset: u64,
    pub track_number: u8,
    /// The 12 bytes of the ISRC.
    pub track_isrc: Vec<u8>,
    pub is_audio: bool,
    pub is_pre_emphasis: bool,
    pub tracks_index: Vec<CueSheetTrackIndex>,
}

/// A cue sheet.
pub struct CueSheetBlock {
    /// The 128 bytes of the media catalog number.
    pub media_catalog_number: Vec<u8>,
    pub number_lead_sample: u64,
    pub is_compact_disc: bool,
    pub cuesheets_tracks: Vec<CueSheetTrack>,
}

/// A picture block.
pub struct PictureBlock {
    pub picture_type: u32,
    pub mime_type: String,
    pub description: String,
    pub pict_width: u32,
    pub pict_height: u32,
    pub color_depth: u32,
    pub number_of_color: u32,
    pub pict_data: Vec<u8>,
}

/// The payload of a metadata block.
pub enum FlacMetadataBlockData {
    STREAMINFO(StreamInfoBlock),
    PADDING(PaddingBlock),
    APPLICATION(ApplicationBlock),
    SEEKTABLE(SeekTableBlock),
    VORBISCOMMENT(VorbisCommentBlock),
    CUESHEET(CueSheetBlock),
    PICTURE(PictureBlock),
}

pub open spec fn zeros(n: nat) -> Seq<u8> {
    Seq::new(n, |i: int| 0u8)
}

pub open spec fn u8_seq(b: bool, bit: u8) -> Seq<u8> {
    seq![if b { bit } else { 0u8 }]
}

pub open spec fn seek_point_bytes(p: SeekPoint) -> Seq<u8> {
    be_seq(p.sample_number_of_first_sample as nat, 8) + be_seq(p.offset as nat, 8) + be_seq(
        p.number_of_sample as nat,
        2,
    )
}

pub open spec fn seek_points_bytes(ps: Seq<SeekPoint>) -> Seq<u8>
    decreases ps.len(),
{
    if ps.len() == 0 {
        Seq::empty()
    } else {
        seek_points_bytes(ps.drop_last()) + seek_point_bytes(ps.last())
    }
}

pub open spec fn index_bytes(x: CueSheetTrackIndex) -> Seq<u8> {
    be_seq(x.offset as nat, 8) + seq![x.index_point_number] + zeros(3)
}

pub open spec fn indexes_bytes(xs: Seq<CueSheetTrackIndex>) -> Seq<u8>
    decreases xs.len(),
{
    if xs.len() == 0 {
        Seq::empty()
    } else {
        indexes_bytes(xs.drop_last()) + index_bytes(xs.last())
    }
}

pub open spec fn track_flags(t: CueSheetTrack) -> u8 {
    ((if t.is_audio { 0u8 } else { 0x80u8 }) + (if t.is_pre_emphasis { 0x40u8 } else { 0u8 })) as u8
}

pub open spec fn track_bytes(t: CueSheetTrack) -> Seq<u8> {
    be_seq(t.track_offset as nat, 8) + seq![t.track_number] + t.track_isrc@ + seq![track_flags(t)]
        + zeros(13) + seq![t.tracks_index@.len() as u8] + indexes_bytes(t.tracks_index@)
}

pub open spec fn tracks_bytes(ts: Seq<CueSheetTrack>) -> Seq<u8>
    decreases ts.len(),
{
    if ts.len() == 0 {
        Seq::empty()
    } else {
        tracks_bytes(ts.drop_last()) + track_bytes(ts.last())
    }
}

/// The bytes of one "KEY=value" comment.
pub open spec fn pair_bytes(k: Seq<char>, v: Seq<char>) -> Seq<u8> {
    encode_utf8(k) + seq![0x3du8] + encode_utf8(v)
}

/// The comments of an entry: one length-prefixed pair per value.
pub open spec fn values_bytes(k: Seq<char>, vs: Seq<Seq<char>>) -> Seq<u8>
    decreases vs.len(),
{
    if vs.len() == 0 {
        Seq::empty()
    } else {
        values_bytes(k, vs.drop_last()) + le_seq(pair_bytes(k, vs.last()).len(), 4) + pair_bytes(
            k,
            vs.last(),
        )
    }
}

/// The comments of a map, entry by entry.
pub open spec fn comments_bytes(m: VorbisModel) -> Seq<u8>
    decreases m.len(),
{
    if m.len() == 0 {
        Seq::empty()
    } else {
        comments_bytes(m.drop_last()) + values_bytes(m.last().0, m.last().1)
    }
}

/// The number of values in a map, which is the number of comments it writes.
pub open spec fn pair_count(m: VorbisModel) -> nat
    decreases m.len(),
{
    if m.len() == 0 {
        0
    } else {
        pair_count(m.drop_last()) + m.last().1.len()
    }
}

pub open spec fn picture_bytes(p: PictureBlock, data_len_field: Seq<u8>) -> Seq<u8> {
    be_seq(p.picture_type as nat, 4) + be_seq(encode_utf8(p.mime_type@).len(), 4) + encode_utf8(
        p.mime_type@,
    ) + be_seq(encode_utf8(p.description@).len(), 4) + encode_utf8(p.description@) + be_seq(
        p.pict_width as nat,
        4,
    ) + be_seq(p.pict_height as nat, 4) + be_seq(p.color_depth as nat, 4) + be_seq(
        p.number_of_color as nat,
        4,
    ) + data_len_field + p.pict_data@
}

/// The payload of a Vorbis comment block: vendor, number of comments, comments.
pub open spec fn vorbis_payload(vendor: Seq<char>, m: VorbisModel) -> Seq<u8> {
    le_seq(encode_utf8(vendor).len(), 4) + encode_utf8(vendor) + le_seq(pair_count(m), 4)
        + comments_bytes(m)
}

/// A Vorbis comment payload whose lengths and count fit their 32-bit fields.
pub open spec fn vorbis_ok(vendor: Seq<char>, m: VorbisModel) -> bool {
    &&& model_wf(m)
    &&& encode_utf8(vendor).len() < 0x1_0000_0000
    &&& pair_count(m) < 0x1_0000_0000
    &&& forall|i: int, j: int|
        0 <= i < m.len() && 0 <= j < m[i].1.len() ==> #[trigger] pair_bytes(m[i].0, m[i].1[j]).len()
            < 0x1_0000_0000
}

/// The payload bytes of a block.
pub open spec fn data_bytes(d: FlacMetadataBlockData) -> Seq<u8> {
    match d {
        FlacMetadataBlockData::STREAMINFO(s) => be_seq(s.min_block_size as nat, 2) + be_seq(
            s.max_block_size as nat,
            2,
        ) + be_seq(s.min_frame_size as nat % 0x100_0000, 3) + be_seq(
            s.max_frame_size as nat % 0x100_0000,
            3,
        ) + be_seq(s.sample_info as nat, 8) + s.md5_signature@,
        FlacMetadataBlockData::PADDING(p) => zeros(p.nb_bytes as nat),
        FlacMetadataBlockData::APPLICATION(a) => be_seq(a.app_id as nat, 4) + a.data@,
        FlacMetadataBlockData::SEEKTABLE(t) => seek_points_bytes(t.seek_points@),
        FlacMetadataBlockData::VORBISCOMMENT(v) => vorbis_payload(v.vendor_name@, v.comments@),
        FlacMetadataBlockData::CUESHEET(c) => c.media_catalog_number@ + be_seq(
            c.number_lead_sample as nat,
            8,
        ) + u8_seq(c.is_compact_disc, 0x80) + zeros(258) + seq![c.cuesheets_tracks@.len() as u8]
            + tracks_bytes(c.cuesheets_tracks@),
        FlacMetadataBlockData::PICTURE(p) => picture_bytes(p, be_seq(p.pict_data@.len(), 4)),
    }
}

impl FlacMetadataBlockData {
    pub open spec fn block_type_spec(&self) -> FlacMetadataBlockType {
        match self {
            FlacMetadataBlockData::STREAMINFO(_) => FlacMetadataBlockType::STREAMINFO,
            FlacMetadataBlockData::PADDING(_) => FlacMetadataBlockType::PADDING,
            FlacMetadataBlockData::APPLICATION(_) => FlacMetadataBlockType::APPLICATION,
            FlacMetadataBlockData::SEEKTABLE(_) => FlacMetadataBlockType::SEEKTABLE,
            FlacMetadataBlockData::VORBISCOMMENT(_) => FlacMetadataBlockType::VORBISCOMMENT,
            FlacMetadataBlockData::CUESHEET(_) => FlacMetadataBlockType::CUESHEET,
            FlacMetadataBlockData::PICTURE(_) => FlacMetadataBlockType::PICTURE,
        }
    }

    /// The type of block this payload belongs in.
    pub fn block_type(&self) -> (r: FlacMetadataBlockType)
        ensures
            r == self.block_type_spec(),
    {
        match self {
            FlacMetadataBlockData::STREAMINFO(_) => FlacMetadataBlockType::STREAMINFO,
            FlacMetadataBlockData::PADDING(_) => FlacMetadataBlockType::PADDING,
            FlacMetadataBlockData::APPLICATION(_) => FlacMetadataBlockType::APPLICATION,
            FlacMetadataBlockData::SEEKTABLE(_) => FlacMetadataBlockType::SEEKTABLE,
            FlacMetadataBlockData::VORBISCOMMENT(_) => FlacMetadataBlockType::VORBISCOMMENT,
            FlacMetadataBlockData::CUESHEET(_) => FlacMetadataBlockType::CUESHEET,
            FlacMetadataBlockData::PICTURE(_) => FlacMetadataBlockType::PICTURE,
        }
    }

    /// The Vorbis comment block this payload is, if it is one.
    pub fn as_vorbis_comments_block(&self) -> (r: Option<&VorbisCommentBlock>)
        ensures
            r matches Some(v) ==> *self == FlacMetadataBlockData::VORBISCOMMENT(*v),
            self is VORBISCOMMENT ==> r is Some,
    {
        match self {
            FlacMetadataBlockData::VORBISCOMMENT(v) => Some(v),
            _ => None,
        }
    }

    /// The picture block this payload is, if it is one.
    pub fn as_picture_block(&self) -> (r: Option<&PictureBlock>)
        ensures
            r matches Some(p) ==> *self == FlacMetadataBlockData::PICTURE(*p),
            self is PICTURE ==> r is Some,
    {
        match self {
            FlacMetadataBlockData::PICTURE(p) => Some(p),
            _ => None,
        }
    }
}

/// Limits under which a payload can be written: every length that the format stores in a
/// fixed-width field fits that field.
pub open spec fn data_ok(d: FlacMetadataBlockData) -> bool {
    match d {
        FlacMetadataBlockData::STREAMINFO(s) => s.md5_signature@.len() == 16 && s.min_frame_size
            < 0x100_0000 && s.max_frame_size < 0x100_0000,
        FlacMetadataBlockData::VORBISCOMMENT(v) => vorbis_ok(v.vendor_name@, v.comments@),
        FlacMetadataBlockData::CUESHEET(c) => {
            &&& c.media_catalog_number@.len() == 128
            &&& c.cuesheets_tracks@.len() < 256
            &&& forall|i: int|
                0 <= i < c.cuesheets_tracks@.len() ==> (#[trigger] c.cuesheets_tracks@[i]).tracks_index@.len()
                    < 256 && c.cuesheets_tracks@[i].track_isrc@.len() == 12
        },
        FlacMetadataBlockData::PICTURE(p) => {
            &&& encode_utf8(p.mime_type@).len() < 0x1_0000_0000
            &&& encode_utf8(p.description@).len() < 0x1_0000_0000
            &&& p.pict_data@.len() < 0x1_0000_0000
        },
        _ => true,
    }
}

proof fn lemma_pow_facts()
    ensures
        pow256(2) == 0x1_0000,
        pow256(3) == 0x100_0000,
        pow256(4) == 0x1_0000_0000,
        pow256(8) == 0x1_0000_0000_0000_0000,
{
    reveal_with_fuel(pow256, 9);
}

fn write_zeros(out: &mut Vec<u8>, n: usize)
    ensures
        final(out)@ == old(out)@ + zeros(n as nat),
{
    let mut k: usize = 0;
    while k < n
        invariant
            k <= n,
            out@ == old(out)@ + zeros(k as nat),
        decreases n - k,
    {
        out.push(0);
        k = k + 1;
        assert(out@ =~= old(out)@ + zeros(k as nat));
    }
}

fn write_track(out: &mut Vec<u8>, t: &CueSheetTrack)
    requires
        t.tracks_index@.len() < 256,
    ensures
        final(out)@ == old(out)@ + track_bytes(*t),
{
    write_be(out, t.track_offset, 8);
    out.push(t.track_number);
    append_slice(out, t.track_isrc.as_slice());
    let f: u8 = (if t.is_audio { 0u8 } else { 0x80u8 }) + (if t.is_pre_emphasis { 0x40u8 } else { 0u8 });
    out.push(f);
    write_zeros(out, 13);
    out.push(t.tracks_index.len() as u8);
    let ghost head = out@;
    let mut i: usize = 0;
    while i < t.tracks_index.len()
        invariant
            i <= t.tracks_index@.len(),
            out@ == head + indexes_bytes(t.tracks_index@.subrange(0, i as int)),
        decreases t.tracks_index@.len() - i,
    {
        let x = &t.tracks_index[i];
        write_be(out, x.offset, 8);
        out.push(x.index_point_number);
        write_zeros(out, 3);
        proof {
            assert(t.tracks_index@.subrange(0, i + 1).drop_last() =~= t.tracks_index@.subrange(0, i as int));
        }
        i = i + 1;
        assert(out@ =~= head + indexes_bytes(t.tracks_index@.subrange(0, i as int)));
    }
    assert(t.tracks_index@.subrange(0, t.tracks_index@.len() as int) =~= t.tracks_index@);
    assert(out@ =~= old(out)@ + track_bytes(*t));
}

impl FlacMetadataBlockData {
    /// The payload bytes of this block.
    pub fn raw_bytes(&self) -> (r: Vec<u8>)
        requires
            data_ok(*self),
        ensures
            r@ == data_bytes(*self),
    {
        let mut out: Vec<u8> = Vec::new();
        proof {
            lemma_pow_facts();
        }
        match self {
            FlacMetadataBlockData::STREAMINFO(s) => {
                write_be(&mut out, s.min_block_size as u64, 2);
                write_be(&mut out, s.max_block_size as u64, 2);
                write_be(&mut out, (s.min_frame_size % 0x100_0000) as u64, 3);
                write_be(&mut out, (s.max_frame_size % 0x100_0000) as u64, 3);
                write_be(&mut out, s.sample_info, 8);
                append_slice(&mut out, s.md5_signature.as_slice());
            },
            FlacMetadataBlockData::PADDING(p) => {
                write_zeros(&mut out, p.nb_bytes);
            },
            FlacMetadataBlockData::APPLICATION(a) => {
                write_be(&mut out, a.app_id as u64, 4);
                append_slice(&mut out, a.data.as_slice());
            },
            FlacMetadataBlockData::SEEKTABLE(t) => {
                let mut i: usize = 0;
                while i < t.seek_points.len()
                    invariant
                        i <= t.seek_points@.len(),
                        out@ == seek_points_bytes(t.seek_points@.subrange(0, i as int)),
                    decreases t.seek_points@.len() - i,
                {
                    let p = &t.seek_points[i];
                    write_be(&mut out, p.sample_number_of_first_sample, 8);
                    write_be(&mut out, p.offset, 8);
                    write_be(&mut out, p.number_of_sample as u64, 2);
                    proof {
                        assert(t.seek_points@.subrange(0, i + 1).drop_last() =~= t.seek_points@.subrange(0, i as int));
                    }
                    i = i + 1;
                    assert(out@ =~= seek_points_bytes(t.seek_points@.subrange(0, i as int)));
                }
                assert(t.seek_points@.subrange(0, t.seek_points@.len() as int) =~= t.seek_points@);
            },
            FlacMetadataBlockData::VORBISCOMMENT(v) => {
                let vb = v.vendor_name.as_str().as_bytes();
                write_le(&mut out, vb.len() as u64, 4);
                append_slice(&mut out, vb);
                let count = v.comments.pair_count();
                write_le(&mut out, count as u64, 4);
                v.comments.write_pairs(&mut out);
            },
            FlacMetadataBlockData::CUESHEET(c) => {
                append_slice(&mut out, c.media_catalog_number.as_slice());
                write_be(&mut out, c.number_lead_sample, 8);
                out.push(if c.is_compact_disc { 0x80 } else { 0 });
                write_zeros(&mut out, 258);
                out.push(c.cuesheets_tracks.len() as u8);
                let ghost head = out@;
                let mut i: usize = 0;
                while i < c.cuesheets_tracks.len()
                    invariant
                        data_ok(*self),
                        *self == FlacMetadataBlockData::CUESHEET(*c),
                        i <= c.cuesheets_tracks@.len(),
                        out@ == head + tracks_bytes(c.cuesheets_tracks@.subrange(0, i as int)),
                    decreases c.cuesheets_tracks@.len() - i,
                {
                    assert(c.cuesheets_tracks@[i as int].tracks_index@.len() < 256);
                    write_track(&mut out, &c.cuesheets_tracks[i]);
                    proof {
                        assert(c.cuesheets_tracks@.subrange(0, i + 1).drop_last() =~= c.cuesheets_tracks@.subrange(0, i as int));
                    }
                    i = i + 1;
                    assert(out@ =~= head + tracks_bytes(c.cuesheets_tracks@.subrange(0, i as int)));
                }
                assert(c.cuesheets_tracks@.subrange(0, c.cuesheets_tracks@.len() as int) =~= c.cuesheets_tracks@);
            },
            FlacMetadataBlockData::PICTURE(p) => {
                write_be(&mut out, p.picture_type as u64, 4);
                let mb = p.mime_type.as_str().as_bytes();
                write_be(&mut out, mb.len() as u64, 4);
                append_slice(&mut out, mb);
                let db = p.description.as_str().as_bytes();
                write_be(&mut out, db.len() as u64, 4);
                append_slice(&mut out, db);
                write_be(&mut out, p.pict_width as u64, 4);
                write_be(&mut out, p.pict_height as u64, 4);
                write_be(&mut out, p.color_depth as u64, 4);
                write_be(&mut out, p.number_of_color as u64, 4);
                write_be(&mut out, p.pict_data.len() as u64, 4);
                append_slice(&mut out, p.pict_data.as_slice());
            },
        }
        assert(out@ =~= data_bytes(*self));
        out
    }

    /// The length of the payload, as written.
    pub fn raw_size(&self) -> (r: usize)
        requires
            data_ok(*self),
        ensures
            r == data_bytes(*self).len(),
    {
        self.raw_bytes().len()
    }
}

impl VorbisVector {
    /// The number of values, which is the number of comments written.
    pub fn pair_count(&self) -> (r: u32)
        requires
            pair_count(self@) < 0x1_0000_0000,
        ensures
            r as nat == pair_count(self@),
    {
        let mut n: u64 = 0;
        let mut i: usize = 0;
        while i < self.comments.len()
            invariant
                i <= self@.len(),
                n as nat == pair_count(self@.subrange(0, i as int)),
                pair_count(self@) < 0x1_0000_0000,
            decreases self@.len() - i,
        {
            proof {
                assert(self@.subrange(0, i + 1).drop_last() =~= self@.subrange(0, i as int));
                lemma_pair_count_prefix(self@, i + 1);
            }
            n = n + self.comments[i].1.len() as u64;
            i = i + 1;
        }
        assert(self@.subrange(0, self@.len() as int) =~= self@);
        n as u32
    }

    /// Appends one length-prefixed "KEY=value" comment per value.
    pub fn write_pairs(&self, out: &mut Vec<u8>)
        requires
            forall|i: int, j: int|
                0 <= i < self@.len() && 0 <= j < self@[i].1.len() ==> #[trigger] pair_bytes(
                    self@[i].0,
                    self@[i].1[j],
                ).len() < 0x1_0000_0000,
        ensures
            final(out)@ == old(out)@ + comments_bytes(self@),
    {
        let ghost head = out@;
        let mut i: usize = 0;
        while i < self.comments.len()
            invariant
                i <= self@.len(),
                out@ == head + comments_bytes(self@.subrange(0, i as int)),
                forall|a: int, b: int|
                    0 <= a < self@.len() && 0 <= b < self@[a].1.len() ==> #[trigger] pair_bytes(
                        self@[a].0,
                        self@[a].1[b],
                    ).len() < 0x1_0000_0000,
            decreases self@.len() - i,
        {
            let k = &self.comments[i].0;
            let vs = &self.comments[i].1;
            let ghost mid = out@;
            let ghost kv = self@[i as int].0;
            let ghost vals = self@[i as int].1;
            let mut j: usize = 0;
            while j < vs.len()
                invariant
                    i < self@.len(),
                    kv == k@,
                    vals == vs@.map_values(|s: String| s@),
                    vals == self@[i as int].1,
                    j <= vals.len(),
                    out@ == mid + values_bytes(kv, vals.subrange(0, j as int)),
                    forall|b: int| 0 <= b < vals.len() ==> #[trigger] pair_bytes(kv, vals[b]).len() < 0x1_0000_0000,
                decreases vals.len() - j,
            {
                let kb = k.as_str().as_bytes();
                let vb = vs[j].as_str().as_bytes();
                assert(vals[j as int] == vs@[j as int]@);
                proof {
                    assert(pair_bytes(kv, vals[j as int]).len() < 0x1_0000_0000);
                    lemma_pow_facts();
                }
                write_le(out, (kb.len() + 1 + vb.len()) as u64, 4);
                append_slice(out, kb);
                out.push(0x3d);
                append_slice(out, vb);
                proof {
                    assert(vals.subrange(0, j + 1).drop_last() =~= vals.subrange(0, j as int));
                }
                j = j + 1;
                assert(out@ =~= mid + values_bytes(kv, vals.subrange(0, j as int)));
            }
            assert(vals.subrange(0, vals.len() as int) =~= vals);
            proof {
                assert(self@.subrange(0, i + 1).drop_last() =~= self@.subrange(0, i as int));
            }
            i = i + 1;
            assert(out@ =~= head + comments_bytes(self@.subrange(0, i as int)));
        }
        assert(self@.subrange(0, self@.len() as int) =~= self@);
    }
}

proof fn lemma_pair_count_prefix(m: VorbisModel, n: int)
    requires
        0 <= n <= m.len(),
    ensures
        pair_count(m.subrange(0, n)) <= pair_count(m),
    decreases m.len(),
{
    if n < m.len() {
        assert(m.drop_last().subrange(0, n) =~= m.subrange(0, n));
        lemma_pair_count_prefix(m.drop_last(), n);
    } else {
        assert(m.subrange(0, n) =~= m);
    }
}

/// Reads a `len`-byte big-endian field at `pos`, when it ends at or before `end`.
fn field_be(b: &[u8], pos: usize, end: usize, len: usize) -> (r: Option<u64>)
    requires
        end <= b@.len(),
        len <= 8,
    ensures
        r matches Some(v) ==> pos + len <= end && v as nat == be_val(b@.subrange(pos as int, pos + len))
            && be_seq(v as nat, len as nat) == b@.subrange(pos as int, pos + len),
        pos + len <= end ==> r is Some,
{
    if pos > end || end - pos < len {
        return None;
    }
    let r = read_be(b, pos, len);
    proof {
        lemma_be_seq_val(b@.subrange(pos as int, pos + len));
    }
    r
}

/// Reads a four-byte little-endian field at `pos`, when it ends at or before `end`.
fn field_le4(b: &[u8], pos: usize, end: usize) -> (r: Option<u64>)
    requires
        end <= b@.len(),
    ensures
        r matches Some(v) ==> pos + 4 <= end && v < 0x1_0000_0000 && le_seq(v as nat, 4) == b@.subrange(
            pos as int,
            pos + 4,
        ),
        pos + 4 <= end ==> r is Some,
{
    if pos > end || end - pos < 4 {
        return None;
    }
    let r = read_le(b, pos, 4);
    proof {
        lemma_le_seq_val(b@.subrange(pos as int, pos + 4));
        lemma_le_val_bound(b@.subrange(pos as int, pos + 4));
        reveal_with_fuel(pow256, 5);
    }
    r
}

/// Whether `b[start..end]` is all zeros.
fn all_zero(b: &[u8], start: usize, end: usize) -> (r: bool)
    requires
        start <= end <= b@.len(),
    ensures
        r == (b@.subrange(start as int, end as int) == zeros((end - start) as nat)),
{
    let mut i: usize = start;
    while i < end
        invariant
            start <= i <= end <= b@.len(),
            forall|k: int| start <= k < i ==> b@[k] == 0,
        decreases end - i,
    {
        if b[i] != 0 {
            assert(b@.subrange(start as int, end as int)[i - start] != zeros((end - start) as nat)[i - start]);
            return false;
        }
        i = i + 1;
    }
    assert(b@.subrange(start as int, end as int) =~= zeros((end - start) as nat));
    true
}

/// Decodes the payload of a STREAMINFO block: exactly 34 bytes.
fn decode_stream_info(b: &[u8], start: usize, end: usize) -> (r: Option<StreamInfoBlock>)
    requires
        start <= end <= b@.len(),
    ensures
        r matches Some(s) ==> data_ok(FlacMetadataBlockData::STREAMINFO(s)) && data_bytes(
            FlacMetadataBlockData::STREAMINFO(s),
        ) == b@.subrange(start as int, end as int),
        end - start == 34 ==> r is Some,
{
    if end - start != 34 {
        return None;
    }
    proof {
        lemma_pow_facts();
    }
    let a = field_be(b, start, end, 2).unwrap();
    let c = field_be(b, start + 2, end, 2).unwrap();
    let d = field_be(b, start + 4, end, 3).unwrap();
    let e = field_be(b, start + 7, end, 3).unwrap();
    let f = field_be(b, start + 10, end, 8).unwrap();
    proof {
        lemma_be_val_bound(b@.subrange(start as int, start + 2));
        lemma_be_val_bound(b@.subrange(start + 2, start + 4));
        lemma_be_val_bound(b@.subrange(start + 4, start + 7));
        lemma_be_val_bound(b@.subrange(start + 7, start + 10));
    }
    let md5 = copy_bytes(b, start + 18, end);
    let s = StreamInfoBlock {
        min_block_size: a as u16,
        max_block_size: c as u16,
        min_frame_size: d as u32,
        max_frame_size: e as u32,
        sample_info: f,
        md5_signature: md5,
    };
    assert(b@.subrange(start as int, end as int) =~= b@.subrange(start as int, start + 2) + b@.subrange(
        start + 2,
        start + 4,
    ) + b@.subrange(start + 4, start + 7) + b@.subrange(start + 7, start + 10) + b@.subrange(
        start + 10,
        start + 18,
    ) + b@.subrange(start + 18, end as int));
    Some(s)
}

/// Decodes the payload of a SEEKTABLE block: a whole number of 18-byte points.
fn decode_seek_table(b: &[u8], start: usize, end: usize) -> (r: Option<SeekTableBlock>)
    requires
        start <= end <= b@.len(),
    ensures
        r matches Some(t) ==> data_bytes(FlacMetadataBlockData::SEEKTABLE(t)) == b@.subrange(
            start as int,
            end as int,
        ),
        (end - start) % 18 == 0 ==> r is Some,
{
    if (end - start) % 18 != 0 {
        return None;
    }
    proof {
        lemma_pow_facts();
    }
    let n = (end - start) / 18;
    let mut points: Vec<SeekPoint> = Vec::new();
    let mut i: usize = 0;
    while i < n
        invariant
            start <= end <= b@.len(),
            n * 18 == end - start,
            i <= n,
            points@.len() == i,
            seek_points_bytes(points@) == b@.subrange(start as int, start + 18 * i),
            pow256(2) == 0x1_0000,
        decreases n - i,
    {
        let pos = start + 18 * i;
        let x = field_be(b, pos, end, 8).unwrap();
        let y = field_be(b, pos + 8, end, 8).unwrap();
        let z = field_be(b, pos + 16, end, 2).unwrap();
        proof {
            lemma_be_val_bound(b@.subrange(pos + 16, pos + 18));
        }
        let p = SeekPoint { sample_number_of_first_sample: x, offset: y, number_of_sample: z as u16 };
        let ghost prev = points@;
        points.push(p);
        proof {
            assert(points@.drop_last() =~= prev);
            assert(b@.subrange(start as int, pos + 18) =~= b@.subrange(start as int, pos as int)
                + b@.subrange(pos as int, pos + 8) + b@.subrange(pos + 8, pos + 16) + b@.subrange(
                pos + 16,
                pos + 18,
            ));
        }
        i = i + 1;
    }
    Some(SeekTableBlock { seek_points: points })
}

pub open spec fn same_track(t: CueSheetTrack, u: CueSheetTrack) -> bool {
    &&& t.track_offset == u.track_offset
    &&& t.track_number == u.track_number
    &&& t.track_isrc@ == u.track_isrc@
    &&& t.is_audio == u.is_audio
    &&& t.is_pre_emphasis == u.is_pre_emphasis
    &&& t.tracks_index@ == u.tracks_index@
}

/// A track that can be written: fewer than 256 index points and a 12-byte ISRC.
pub open spec fn track_ok(t: CueSheetTrack) -> bool {
    t.tracks_index@.len() < 256 && t.track_isrc@.len() == 12
}

/// The bytes of track `t` stand at `pos` of `b`, ending at or before `end`.
pub open spec fn track_at(b: Seq<u8>, pos: int, end: int, t: CueSheetTrack) -> bool {
    track_ok(t) && pos + track_bytes(t).len() <= end && b.subrange(pos, pos + track_bytes(t).len())
        == track_bytes(t)
}

proof fn lemma_indexes_step(xs: Seq<CueSheetTrackIndex>, k: int)
    requires
        0 <= k < xs.len(),
    ensures
        indexes_bytes(xs.take(k + 1)) == indexes_bytes(xs.take(k)) + index_bytes(xs[k]),
        indexes_bytes(xs.take(k)).len() == 12 * k,
    decreases k,
{
    assert(xs.take(k + 1).drop_last() =~= xs.take(k));
    lemma_indexes_len(xs.take(k));
}

proof fn lemma_indexes_len(xs: Seq<CueSheetTrackIndex>)
    ensures
        indexes_bytes(xs).len() == 12 * xs.len(),
    decreases xs.len(),
{
    if xs.len() > 0 {
        lemma_indexes_len(xs.drop_last());
        crate::bytes::lemma_be_seq_len(xs.last().offset as nat, 8);
    }
}

proof fn lemma_indexes_prefix(xs: Seq<CueSheetTrackIndex>, j: int)
    requires
        0 <= j <= xs.len(),
    ensures
        indexes_bytes(xs).subrange(0, 12 * j) == indexes_bytes(xs.take(j)),
    decreases xs.len(),
{
    lemma_indexes_len(xs);
    lemma_indexes_len(xs.take(j));
    if j == xs.len() {
        assert(xs.take(j) =~= xs);
        assert(indexes_bytes(xs).subrange(0, 12 * j) =~= indexes_bytes(xs));
    } else {
        lemma_indexes_prefix(xs.drop_last(), j);
        assert(xs.drop_last().take(j) =~= xs.take(j));
        lemma_indexes_len(xs.drop_last());
        assert(indexes_bytes(xs).subrange(0, 12 * j) =~= indexes_bytes(xs.drop_last()).subrange(0, 12 * j));
    }
}

/// The fields of a written track stand at their offsets.
proof fn lemma_track_layout(b: Seq<u8>, pos: int, end: int, t: CueSheetTrack)
    requires
        0 <= pos <= end <= b.len(),
        track_at(b, pos, end, t),
    ensures
        pos + 36 + 12 * t.tracks_index@.len() <= end,
        track_bytes(t).len() == 36 + 12 * t.tracks_index@.len(),
        b.subrange(pos, pos + 8) == be_seq(t.track_offset as nat, 8),
        b[pos + 8] == t.track_number,
        b.subrange(pos + 9, pos + 21) == t.track_isrc@,
        b[pos + 21] == track_flags(t),
        b.subrange(pos + 22, pos + 35) == zeros(13),
        b[pos + 35] == t.tracks_index@.len() as u8,
        b.subrange(pos + 36, pos + 36 + 12 * t.tracks_index@.len()) == indexes_bytes(t.tracks_index@),
{
    lemma_indexes_len(t.tracks_index@);
    crate::bytes::lemma_be_seq_len(t.track_offset as nat, 8);
    let s0 = be_seq(t.track_offset as nat, 8);
    let s1 = seq![t.track_number];
    let s2 = t.track_isrc@;
    let s3 = seq![track_flags(t)];
    let s4 = zeros(13);
    let s5 = seq![t.tracks_index@.len() as u8];
    let s6 = indexes_bytes(t.tracks_index@);
    let e = pos + track_bytes(t).len();
    assert(track_bytes(t) =~= s0 + s1 + s2 + s3 + s4 + s5 + s6);
    lemma_piece_at(b, pos, e, Seq::empty(), s0, s1 + s2 + s3 + s4 + s5 + s6);
    lemma_piece_at(b, pos, e, s0, s1, s2 + s3 + s4 + s5 + s6);
    lemma_piece_at(b, pos, e, s0 + s1, s2, s3 + s4 + s5 + s6);
    lemma_piece_at(b, pos, e, s0 + s1 + s2, s3, s4 + s5 + s6);
    lemma_piece_at(b, pos, e, s0 + s1 + s2 + s3, s4, s5 + s6);
    lemma_piece_at(b, pos, e, s0 + s1 + s2 + s3 + s4, s5, s6);
    lemma_piece_at(b, pos, e, s0 + s1 + s2 + s3 + s4 + s5, s6, Seq::empty());
    assert(b[pos + 8] == b.subrange(pos + 8, pos + 9)[0]);
    assert(b[pos + 21] == b.subrange(pos + 21, pos + 22)[0]);
    assert(b[pos + 35] == b.subrange(pos + 35, pos + 36)[0]);
}

/// The flag byte of a track gives back its two flags.
proof fn lemma_track_flags(t: CueSheetTrack)
    ensures
        (track_flags(t) & 0x80 == 0) == t.is_audio,
        (track_flags(t) & 0x40 != 0) == t.is_pre_emphasis,
        track_flags(t) == 0 || track_flags(t) == 0x80 || track_flags(t) == 0x40 || track_flags(t) == 0xc0,
{
    let f = track_flags(t);
    assert((f == 0 ==> (f & 0x80 == 0 && f & 0x40 == 0)) && (f == 0x80 ==> (f & 0x80 != 0 && f & 0x40 == 0))
        && (f == 0x40 ==> (f & 0x80 == 0 && f & 0x40 != 0)) && (f == 0xc0 ==> (f & 0x80 != 0 && f & 0x40
        != 0))) by (bit_vector);
}

/// Index point `k` of a written index list stands at offset `12 k`.
proof fn lemma_index_at(b: Seq<u8>, base: int, xs: Seq<CueSheetTrackIndex>, k: int)
    requires
        0 <= base,
        base + 12 * xs.len() <= b.len(),
        0 <= k < xs.len(),
        b.subrange(base, base + 12 * xs.len()) == indexes_bytes(xs),
    ensures
        b.subrange(base + 12 * k, base + 12 * k + 8) == be_seq(xs[k].offset as nat, 8),
        b[base + 12 * k + 8] == xs[k].index_point_number,
        b.subrange(base + 12 * k + 9, base + 12 * k + 12) == zeros(3),
{
    lemma_indexes_prefix(xs, k + 1);
    lemma_indexes_step(xs, k);
    crate::bytes::lemma_be_seq_len(xs[k].offset as nat, 8);
    let pre = indexes_bytes(xs.take(k));
    let ib = index_bytes(xs[k]);
    let all = indexes_bytes(xs);
    assert(all.subrange(0, 12 * (k + 1)) == pre + ib);
    assert forall|t: int| 0 <= t < 12 implies b[base + 12 * k + t] == ib[t] by {
        assert(b[base + 12 * k + t] == all[12 * k + t]);
        assert(all[12 * k + t] == all.subrange(0, 12 * (k + 1))[12 * k + t]);
    }
    assert(b.subrange(base + 12 * k, base + 12 * k + 8) =~= ib.subrange(0, 8));
    assert(ib.subrange(0, 8) =~= be_seq(xs[k].offset as nat, 8));
    assert(ib[8] == xs[k].index_point_number);
    assert(ib[9] == 0 && ib[10] == 0 && ib[11] == 0);
    assert(b[base + 12 * k + 8] == ib[8]);
    assert(b[base + 12 * k + 9] == ib[9]);
    assert(b[base + 12 * k + 10] == ib[10]);
    assert(b[base + 12 * k + 11] == ib[11]);
    assert(b.subrange(base + 12 * k + 9, base + 12 * k + 12) =~= zeros(3));
}

/// Decodes one cue-sheet track at `pos`: the track and the offset past it.
fn decode_track(b: &[u8], pos: usize, end: usize) -> (r: Option<(CueSheetTrack, usize)>)
    requires
        pos <= end <= b@.len(),
    ensures
        r matches Some((t, p)) ==> pos <= p <= end && t.tracks_index@.len() < 256
            && t.track_isrc@.len() == 12 && b@.subrange(pos as int, p as int) == track_bytes(t),
        forall|u: CueSheetTrack|
            #[trigger] track_at(b@, pos as int, end as int, u) ==> (r matches Some((t, p)) && same_track(t, u) && p
                == pos + track_bytes(u).len()),
{
    proof {
        lemma_pow_facts();
        assert forall|u: CueSheetTrack| #[trigger] track_at(b@, pos as int, end as int, u) implies pos + 36 <= end by {
            lemma_track_layout(b@, pos as int, end as int, u);
        }
    }
    if end - pos < 36 {
        return None;
    }
    let off = field_be(b, pos, end, 8).unwrap();
    let number = b[pos + 8];
    let isrc = copy_bytes(b, pos + 9, pos + 21);
    let fl = b[pos + 21];
    proof {
        assert forall|u: CueSheetTrack| #[trigger] track_at(b@, pos as int, end as int, u) implies fl == track_flags(u)
            && b@.subrange(pos + 22, pos + 35) == zeros(13) && b@[pos + 35] == u.tracks_index@.len() as u8
            && off == u.track_offset && number == u.track_number && isrc@ == u.track_isrc@ by {
            lemma_track_layout(b@, pos as int, end as int, u);
            lemma_track_flags(u);
            lemma_be_inj(off as nat, u.track_offset as nat, 8);
        }
    }
    if fl != 0 && fl != 0x80 && fl != 0x40 && fl != 0xc0 {
        proof {
            assert forall|u: CueSheetTrack| #[trigger] track_at(b@, pos as int, end as int, u) implies false by {
                lemma_track_flags(u);
            }
        }
        return None;
    }
    if !all_zero(b, pos + 22, pos + 35) {
        return None;
    }
    let count = b[pos + 35];
    let mut idx: Vec<CueSheetTrackIndex> = Vec::new();
    let mut q: usize = pos + 36;
    let mut k: u8 = 0;
    while k < count
        invariant
            pos + 36 <= q <= end <= b@.len(),
            idx@.len() == k,
            k <= count,
            q == pos + 36 + 12 * k,
            indexes_bytes(idx@) == b@.subrange(pos + 36, q as int),
            pow256(8) == 0x1_0000_0000_0000_0000,
            forall|u: CueSheetTrack| #[trigger] track_at(b@, pos as int, end as int, u) ==> count
                == u.tracks_index@.len() && idx@ == u.tracks_index@.take(k as int),
        decreases count - k,
    {
        proof {
            assert forall|u: CueSheetTrack| #[trigger] track_at(b@, pos as int, end as int, u) implies q + 12 <= end
                && b@.subrange(q as int, q + 8) == be_seq(u.tracks_index@[k as int].offset as nat, 8) && b@[q + 8]
                == u.tracks_index@[k as int].index_point_number && b@.subrange(q + 9, q + 12) == zeros(3) by {
                lemma_track_layout(b@, pos as int, end as int, u);
                lemma_index_at(b@, pos + 36, u.tracks_index@, k as int);
            }
        }
        if end - q < 12 {
            return None;
        }
        let o = field_be(b, q, end, 8).unwrap();
        let n = b[q + 8];
        if !all_zero(b, q + 9, q + 12) {
            return None;
        }
        let x = CueSheetTrackIndex { offset: o, index_point_number: n };
        let ghost prev = idx@;
        idx.push(x);
        proof {
            assert forall|u: CueSheetTrack| #[trigger] track_at(b@, pos as int, end as int, u) implies idx@
                == u.tracks_index@.take(k + 1) by {
                lemma_be_inj(o as nat, u.tracks_index@[k as int].offset as nat, 8);
                assert(u.tracks_index@.take(k + 1) =~= u.tracks_index@.take(k as int).push(u.tracks_index@[k as int]));
            }
            assert(idx@.drop_last() =~= prev);
            assert(b@.subrange(pos + 36, q + 12) =~= b@.subrange(pos + 36, q as int) + b@.subrange(
                q as int,
                q + 8,
            ) + seq![b@[q + 8]] + b@.subrange(q + 9, q + 12));
        }
        q = q + 12;
        k = k + 1;
    }
    let t = CueSheetTrack {
        track_offset: off,
        track_number: number,
        track_isrc: isrc,
        is_audio: fl & 0x80 == 0,
        is_pre_emphasis: fl & 0x40 != 0,
        tracks_index: idx,
    };
    proof {
        assert(fl == 0 || fl == 0x80 || fl == 0x40 || fl == 0xc0);
        assert((fl & 0x80 == 0) == (fl == 0 || fl == 0x40) && (fl & 0x40 != 0) == (fl == 0x40 || fl
            == 0xc0)) by (bit_vector)
            requires
                fl == 0 || fl == 0x80 || fl == 0x40 || fl == 0xc0,
        ;
        assert(track_flags(t) == fl);
        assert(b@.subrange(pos as int, q as int) =~= b@.subrange(pos as int, pos + 8) + seq![number]
            + b@.subrange(pos + 9, pos + 21) + seq![fl] + b@.subrange(pos + 22, pos + 35) + seq![count]
            + b@.subrange(pos + 36, q as int));
        assert forall|u: CueSheetTrack| #[trigger] track_at(b@, pos as int, end as int, u) implies same_track(t, u)
            && q == pos + track_bytes(u).len() by {
            lemma_track_layout(b@, pos as int, end as int, u);
            lemma_track_flags(u);
            assert(u.tracks_index@.take(count as int) =~= u.tracks_index@);
        }
    }
    Some((t, q))
}

proof fn lemma_tracks_step(ts: Seq<CueSheetTrack>, k: int)
    requires
        0 <= k < ts.len(),
    ensures
        tracks_bytes(ts.take(k + 1)) == tracks_bytes(ts.take(k)) + track_bytes(ts[k]),
{
    assert(ts.take(k + 1).drop_last() =~= ts.take(k));
}

proof fn lemma_tracks_prefix(ts: Seq<CueSheetTrack>, j: int)
    requires
        0 <= j <= ts.len(),
    ensures
        tracks_bytes(ts.take(j)).len() <= tracks_bytes(ts).len(),
        tracks_bytes(ts).subrange(0, tracks_bytes(ts.take(j)).len() as int) == tracks_bytes(ts.take(j)),
    decreases ts.len(),
{
    if j == ts.len() {
        assert(ts.take(j) =~= ts);
        assert(tracks_bytes(ts).subrange(0, tracks_bytes(ts).len() as int) =~= tracks_bytes(ts));
    } else {
        lemma_tracks_prefix(ts.drop_last(), j);
        assert(ts.drop_last().take(j) =~= ts.take(j));
        let n = tracks_bytes(ts.take(j)).len() as int;
        assert(tracks_bytes(ts).subrange(0, n) =~= tracks_bytes(ts.drop_last()).subrange(0, n));
    }
}

/// Two cue sheets hold the same content.
pub open spec fn same_cue(c: CueSheetBlock, d: CueSheetBlock) -> bool {
    &&& c.media_catalog_number@ == d.media_catalog_number@
    &&& c.number_lead_sample == d.number_lead_sample
    &&& c.is_compact_disc == d.is_compact_disc
    &&& c.cuesheets_tracks@.len() == d.cuesheets_tracks@.len()
    &&& forall|i: int| 0 <= i < c.cuesheets_tracks@.len() ==> same_track(
        #[trigger] c.cuesheets_tracks@[i],
        d.cuesheets_tracks@[i],
    )
}

/// The fields of a written cue sheet stand at their offsets.
proof fn lemma_cue_layout(b: Seq<u8>, start: int, end: int, c: CueSheetBlock)
    requires
        0 <= start <= end <= b.len(),
        data_ok(FlacMetadataBlockData::CUESHEET(c)),
        data_bytes(FlacMetadataBlockData::CUESHEET(c)) == b.subrange(start, end),
    ensures
        start + 396 <= end,
        b.subrange(start, start + 128) == c.media_catalog_number@,
        b.subrange(start + 128, start + 136) == be_seq(c.number_lead_sample as nat, 8),
        b[start + 136] == (if c.is_compact_disc { 0x80u8 } else { 0u8 }),
        b.subrange(start + 137, start + 395) == zeros(258),
        b[start + 395] == c.cuesheets_tracks@.len() as u8,
        b.subrange(start + 396, end) == tracks_bytes(c.cuesheets_tracks@),
{
    crate::bytes::lemma_be_seq_len(c.number_lead_sample as nat, 8);
    let s0 = c.media_catalog_number@;
    let s1 = be_seq(c.number_lead_sample as nat, 8);
    let s2 = u8_seq(c.is_compact_disc, 0x80);
    let s3 = zeros(258);
    let s4 = seq![c.cuesheets_tracks@.len() as u8];
    let s5 = tracks_bytes(c.cuesheets_tracks@);
    assert(data_bytes(FlacMetadataBlockData::CUESHEET(c)) =~= s0 + s1 + s2 + s3 + s4 + s5);
    lemma_piece_at(b, start, end, Seq::empty(), s0, s1 + s2 + s3 + s4 + s5);
    lemma_piece_at(b, start, end, s0, s1, s2 + s3 + s4 + s5);
    lemma_piece_at(b, start, end, s0 + s1, s2, s3 + s4 + s5);
    lemma_piece_at(b, start, end, s0 + s1 + s2, s3, s4 + s5);
    lemma_piece_at(b, start, end, s0 + s1 + s2 + s3, s4, s5);
    lemma_piece_at(b, start, end, s0 + s1 + s2 + s3 + s4, s5, Seq::empty());
    assert(b[start + 136] == b.subrange(start + 136, start + 137)[0]);
    assert(b[start + 395] == b.subrange(start + 395, start + 396)[0]);
}

/// Decodes the payload of a CUESHEET block.
fn decode_cue_sheet(b: &[u8], start: usize, end: usize) -> (r: Option<CueSheetBlock>)
    requires
        start <= end <= b@.len(),
    ensures
        r matches Some(c) ==> data_ok(FlacMetadataBlockData::CUESHEET(c)) && data_bytes(
            FlacMetadataBlockData::CUESHEET(c),
        ) == b@.subrange(start as int, end as int),
        forall|c: CueSheetBlock|
            data_ok(FlacMetadataBlockData::CUESHEET(c)) && #[trigger] data_bytes(FlacMetadataBlockData::CUESHEET(c))
                == b@.subrange(start as int, end as int) ==> (r matches Some(d) && same_cue(d, c)),
{
    proof {
        lemma_pow_facts();
        assert forall|c: CueSheetBlock|
            data_ok(FlacMetadataBlockData::CUESHEET(c)) && #[trigger] data_bytes(FlacMetadataBlockData::CUESHEET(c))
                == b@.subrange(start as int, end as int) implies start + 396 <= end by {
            lemma_cue_layout(b@, start as int, end as int, c);
        }
    }
    if end - start < 396 {
        return None;
    }
    let catalog = copy_bytes(b, start, start + 128);
    let lead = field_be(b, start + 128, end, 8).unwrap();
    let cd = b[start + 136];
    proof {
        assert forall|c: CueSheetBlock|
            data_ok(FlacMetadataBlockData::CUESHEET(c)) && #[trigger] data_bytes(FlacMetadataBlockData::CUESHEET(c))
                == b@.subrange(start as int, end as int) implies (cd == 0 || cd == 0x80) && b@.subrange(
                start + 137,
                start + 395,
            ) == zeros(258) && b@[start + 395] == c.cuesheets_tracks@.len() as u8 && catalog@
                == c.media_catalog_number@ && lead == c.number_lead_sample && (cd == 0x80) == c.is_compact_disc by {
            lemma_cue_layout(b@, start as int, end as int, c);
            lemma_be_inj(lead as nat, c.number_lead_sample as nat, 8);
        }
    }
    if cd != 0 && cd != 0x80 {
        return None;
    }
    if !all_zero(b, start + 137, start + 395) {
        return None;
    }
    let count = b[start + 395];
    let mut tracks: Vec<CueSheetTrack> = Vec::new();
    let mut q: usize = start + 396;
    let mut k: u8 = 0;
    while k < count
        invariant
            start + 396 <= q <= end <= b@.len(),
            tracks@.len() == k,
            k <= count,
            tracks_bytes(tracks@) == b@.subrange(start + 396, q as int),
            forall|i: int|
                0 <= i < tracks@.len() ==> (#[trigger] tracks@[i]).tracks_index@.len() < 256
                    && tracks@[i].track_isrc@.len() == 12,
            forall|c: CueSheetBlock|
                data_ok(FlacMetadataBlockData::CUESHEET(c)) && #[trigger] data_bytes(FlacMetadataBlockData::CUESHEET(c))
                    == b@.subrange(start as int, end as int) ==> count == c.cuesheets_tracks@.len() && q == start + 396
                    + tracks_bytes(c.cuesheets_tracks@.take(k as int)).len() && forall|i: int|
                    0 <= i < k ==> same_track(#[trigger] tracks@[i], c.cuesheets_tracks@[i]),
        decreases count - k,
    {
        proof {
            assert forall|c: CueSheetBlock|
                data_ok(FlacMetadataBlockData::CUESHEET(c)) && #[trigger] data_bytes(FlacMetadataBlockData::CUESHEET(c))
                    == b@.subrange(start as int, end as int) implies track_at(
                    b@,
                    q as int,
                    end as int,
                    c.cuesheets_tracks@[k as int],
                ) by {
                lemma_cue_layout(b@, start as int, end as int, c);
                let ts = c.cuesheets_tracks@;
                lemma_tracks_step(ts, k as int);
                lemma_tracks_prefix(ts, k + 1);
                let tb = track_bytes(ts[k as int]);
                let pre = tracks_bytes(ts.take(k as int));
                let all = tracks_bytes(ts);
                assert(all.subrange(0, (pre + tb).len() as int) == pre + tb);
                assert(ts[k as int].tracks_index@.len() < 256 && ts[k as int].track_isrc@.len() == 12);
                assert forall|t: int| 0 <= t < tb.len() implies b@[q + t] == tb[t] by {
                    assert(b@[q + t] == all[pre.len() + t]);
                    assert(all[pre.len() + t] == (pre + tb)[pre.len() + t]);
                }
                assert(b@.subrange(q as int, q + tb.len()) =~= tb);
            }
        }
        let (t, p) = match decode_track(b, q, end) {
            Some(x) => x,
            None => {
                return None;
            },
        };
        let ghost prev = tracks@;
        let ghost tv = t;
        tracks.push(t);
        proof {
            assert(tracks@.drop_last() =~= prev);
            assert(b@.subrange(start + 396, p as int) =~= b@.subrange(start + 396, q as int)
                + b@.subrange(q as int, p as int));
            assert forall|c: CueSheetBlock|
                data_ok(FlacMetadataBlockData::CUESHEET(c)) && #[trigger] data_bytes(FlacMetadataBlockData::CUESHEET(c))
                    == b@.subrange(start as int, end as int) implies p == start + 396 + tracks_bytes(
                    c.cuesheets_tracks@.take(k + 1),
                ).len() && forall|i: int| 0 <= i < k + 1 ==> same_track(#[trigger] tracks@[i], c.cuesheets_tracks@[i]) by {
                lemma_tracks_step(c.cuesheets_tracks@, k as int);
                assert forall|i: int| 0 <= i < k + 1 implies same_track(#[trigger] tracks@[i], c.cuesheets_tracks@[i]) by {
                    if i < k {
                        assert(tracks@[i] == prev[i]);
                    }
                }
            }
        }
        q = p;
        k = k + 1;
    }
    if q != end {
        proof {
            assert forall|c: CueSheetBlock|
                data_ok(FlacMetadataBlockData::CUESHEET(c)) && #[trigger] data_bytes(FlacMetadataBlockData::CUESHEET(c))
                    == b@.subrange(start as int, end as int) implies false by {
                lemma_cue_layout(b@, start as int, end as int, c);
                assert(c.cuesheets_tracks@.take(count as int) =~= c.cuesheets_tracks@);
            }
        }
        return None;
    }
    let c = CueSheetBlock {
        media_catalog_number: catalog,
        number_lead_sample: lead,
        is_compact_disc: cd == 0x80,
        cuesheets_tracks: tracks,
    };
    proof {
        assert(u8_seq(c.is_compact_disc, 0x80) == seq![cd]);
        assert(b@.subrange(start as int, end as int) =~= b@.subrange(start as int, start + 128)
            + b@.subrange(start + 128, start + 136) + seq![cd] + b@.subrange(start + 137, start + 395)
            + seq![count] + b@.subrange(start + 396, end as int));
    }
    Some(c)
}

/// Decodes the payload of an APPLICATION block: a four-byte identifier and data.
fn decode_application(b: &[u8], start: usize, end: usize) -> (r: Option<ApplicationBlock>)
    requires
        start <= end <= b@.len(),
    ensures
        r matches Some(a) ==> data_bytes(FlacMetadataBlockData::APPLICATION(a)) == b@.subrange(
            start as int,
            end as int,
        ),
        end - start >= 4 ==> r is Some,
{
    proof {
        lemma_pow_facts();
    }
    let id = match field_be(b, start, end, 4) {
        Some(v) => v,
        None => {
            return None;
        },
    };
    proof {
        lemma_be_val_bound(b@.subrange(start as int, start + 4));
    }
    let data = copy_bytes(b, start + 4, end);
    assert(b@.subrange(start as int, end as int) =~= b@.subrange(start as int, start + 4) + data@);
    Some(ApplicationBlock { app_id: id as u32, data })
}

/// Two pictures hold the same content.
pub open spec fn same_picture(p: PictureBlock, q: PictureBlock) -> bool {
    &&& p.picture_type == q.picture_type
    &&& p.mime_type@ == q.mime_type@
    &&& p.description@ == q.description@
    &&& p.pict_width == q.pict_width
    &&& p.pict_height == q.pict_height
    &&& p.color_depth == q.color_depth
    &&& p.number_of_color == q.number_of_color
    &&& p.pict_data@ == q.pict_data@
}

proof fn lemma_picture_layout(b: Seq<u8>, start: int, end: int, p: PictureBlock, field: Seq<u8>)
    requires
        0 <= start <= end <= b.len(),
        data_ok(FlacMetadataBlockData::PICTURE(p)),
        field.len() == 4,
        picture_bytes(p, field) == b.subrange(start, end),
    ensures
        ({
            let ml = encode_utf8(p.mime_type@).len() as int;
            let dl = encode_utf8(p.description@).len() as int;
            let m_end = start + 8 + ml;
            let d_end = m_end + 4 + dl;
            &&& d_end + 20 <= end
            &&& be_seq(p.picture_type as nat, 4) == b.subrange(start, start + 4)
            &&& be_seq(ml as nat, 4) == b.subrange(start + 4, start + 8)
            &&& encode_utf8(p.mime_type@) == b.subrange(start + 8, m_end)
            &&& be_seq(dl as nat, 4) == b.subrange(m_end, m_end + 4)
            &&& encode_utf8(p.description@) == b.subrange(m_end + 4, d_end)
            &&& be_seq(p.pict_width as nat, 4) == b.subrange(d_end, d_end + 4)
            &&& be_seq(p.pict_height as nat, 4) == b.subrange(d_end + 4, d_end + 8)
            &&& be_seq(p.color_depth as nat, 4) == b.subrange(d_end + 8, d_end + 12)
            &&& be_seq(p.number_of_color as nat, 4) == b.subrange(d_end + 12, d_end + 16)
            &&& p.pict_data@ == b.subrange(d_end + 20, end)
        }),
{
    let ml = encode_utf8(p.mime_type@).len();
    let dl = encode_utf8(p.description@).len();
    let s0 = be_seq(p.picture_type as nat, 4);
    let s1 = be_seq(ml, 4);
    let s2 = encode_utf8(p.mime_type@);
    let s3 = be_seq(dl, 4);
    let s4 = encode_utf8(p.description@);
    let s5 = be_seq(p.pict_width as nat, 4);
    let s6 = be_seq(p.pict_height as nat, 4);
    let s7 = be_seq(p.color_depth as nat, 4);
    let s8 = be_seq(p.number_of_color as nat, 4);
    let s9 = field;
    let s10 = p.pict_data@;
    lemma_be_seq_len(p.picture_type as nat, 4);
    lemma_be_seq_len(ml, 4);
    lemma_be_seq_len(dl, 4);
    lemma_be_seq_len(p.pict_width as nat, 4);
    lemma_be_seq_len(p.pict_height as nat, 4);
    lemma_be_seq_len(p.color_depth as nat, 4);
    lemma_be_seq_len(p.number_of_color as nat, 4);
    let all = s0 + s1 + s2 + s3 + s4 + s5 + s6 + s7 + s8 + s9 + s10;
    assert(picture_bytes(p, s9) =~= all);
    lemma_piece_at(b, start, end, Seq::empty(), s0, s1 + s2 + s3 + s4 + s5 + s6 + s7 + s8 + s9 + s10);
    lemma_piece_at(b, start, end, s0, s1, s2 + s3 + s4 + s5 + s6 + s7 + s8 + s9 + s10);
    lemma_piece_at(b, start, end, s0 + s1, s2, s3 + s4 + s5 + s6 + s7 + s8 + s9 + s10);
    lemma_piece_at(b, start, end, s0 + s1 + s2, s3, s4 + s5 + s6 + s7 + s8 + s9 + s10);
    lemma_piece_at(b, start, end, s0 + s1 + s2 + s3, s4, s5 + s6 + s7 + s8 + s9 + s10);
    lemma_piece_at(b, start, end, s0 + s1 + s2 + s3 + s4, s5, s6 + s7 + s8 + s9 + s10);
    lemma_piece_at(b, start, end, s0 + s1 + s2 + s3 + s4 + s5, s6, s7 + s8 + s9 + s10);
    lemma_piece_at(b, start, end, s0 + s1 + s2 + s3 + s4 + s5 + s6, s7, s8 + s9 + s10);
    lemma_piece_at(b, start, end, s0 + s1 + s2 + s3 + s4 + s5 + s6 + s7, s8, s9 + s10);
    lemma_piece_at(b, start, end, s0 + s1 + s2 + s3 + s4 + s5 + s6 + s7 + s8 + s9, s10, Seq::empty());
}

/// A piece of a concatenation stands at its offset.
proof fn lemma_piece_at(b: Seq<u8>, start: int, end: int, pre: Seq<u8>, piece: Seq<u8>, post: Seq<u8>)
    requires
        0 <= start <= end <= b.len(),
        b.subrange(start, end) =~= pre + piece + post,
    ensures
        start + pre.len() + piece.len() + post.len() == end,
        b.subrange(start + pre.len(), start + pre.len() + piece.len()) == piece,
{
    let sub = b.subrange(start, end);
    assert(sub.len() == pre.len() + piece.len() + post.len());
    assert(b.subrange(start + pre.len(), start + pre.len() + piece.len()) =~= piece) by {
        assert forall|k: int| 0 <= k < piece.len() implies b[start + pre.len() + k] == piece[k] by {
            assert(sub[pre.len() + k] == piece[k]);
        }
    }
}

/// Decodes the payload of a PICTURE block. The length of the picture data is what remains
/// of the block, whatever its own length field says.
#[verifier::rlimit(60)]
fn decode_picture_block(b: &[u8], start: usize, end: usize) -> (r: Option<PictureBlock>)
    requires
        start <= end <= b@.len(),
    ensures
        r matches Some(p) ==> data_ok(FlacMetadataBlockData::PICTURE(p)) && exists|field: Seq<u8>|
            field.len() == 4 && picture_bytes(p, field) == b@.subrange(start as int, end as int),
        forall|q: PictureBlock, field: Seq<u8>|
            field.len() == 4 && data_ok(FlacMetadataBlockData::PICTURE(q)) && #[trigger] picture_bytes(q, field)
                == b@.subrange(start as int, end as int) ==> (r matches Some(p) && same_picture(p, q)),
{
    proof {
        lemma_pow_facts();
    }
    let t = field_be(b, start, end, 4);
    let ml = if t.is_some() { field_be(b, start + 4, end, 4) } else { None };
    let mut mime: Option<String> = None;
    let mut desc: Option<String> = None;
    let mut m_end: usize = 0;
    let mut d_end: usize = 0;
    let mut ok = false;
    if t.is_some() && ml.is_some() && ml.unwrap() <= (end - (start + 8)) as u64 {
        m_end = start + 8 + ml.unwrap() as usize;
        mime = decode_text(b, start + 8, m_end, TextEncoding::UnicodeUtf8);
        if mime.is_some() {
            let dl = field_be(b, m_end, end, 4);
            if dl.is_some() && dl.unwrap() <= (end - (m_end + 4)) as u64 {
                d_end = m_end + 4 + dl.unwrap() as usize;
                desc = decode_text(b, m_end + 4, d_end, TextEncoding::UnicodeUtf8);
                ok = desc.is_some() && end - d_end >= 20;
            }
        }
    }
    proof {
        assert forall|q: PictureBlock, field: Seq<u8>|
            field.len() == 4 && data_ok(FlacMetadataBlockData::PICTURE(q)) && #[trigger] picture_bytes(q, field)
                == b@.subrange(start as int, end as int) implies ok && t == Some(q.picture_type as u64)
                && mime.unwrap()@ == q.mime_type@ && desc.unwrap()@ == q.description@
                && d_end == start + 12 + encode_utf8(q.mime_type@).len() + encode_utf8(q.description@).len() by {
            lemma_picture_layout(b@, start as int, end as int, q, field);
            let mlq = encode_utf8(q.mime_type@).len();
            let dlq = encode_utf8(q.description@).len();
            lemma_be_val_seq(mlq, 4);
            lemma_be_val_seq(dlq, 4);
            lemma_be_val_seq(q.picture_type as nat, 4);
            assert(text_bytes(TextEncoding::UnicodeUtf8, q.mime_type@) == encode_utf8(q.mime_type@));
            assert(text_bytes(TextEncoding::UnicodeUtf8, q.description@) == encode_utf8(q.description@));
        }
    }
    if !ok {
        return None;
    }
    let mime = mime.unwrap();
    let desc = desc.unwrap();
    let w = field_be(b, d_end, end, 4).unwrap();
    let h = field_be(b, d_end + 4, end, 4).unwrap();
    let dp = field_be(b, d_end + 8, end, 4).unwrap();
    let nc = field_be(b, d_end + 12, end, 4).unwrap();
    let data = copy_bytes(b, d_end + 20, end);
    proof {
        lemma_be_val_bound(b@.subrange(start as int, start + 4));
        lemma_be_val_bound(b@.subrange(d_end as int, d_end + 4));
        lemma_be_val_bound(b@.subrange(d_end + 4, d_end + 8));
        lemma_be_val_bound(b@.subrange(d_end + 8, d_end + 12));
        lemma_be_val_bound(b@.subrange(d_end + 12, d_end + 16));
        lemma_be_val_bound(b@.subrange(start + 4, start + 8));
        lemma_be_val_bound(b@.subrange(m_end as int, m_end + 4));
    }
    if data.len() as u64 >= 0x1_0000_0000u64 {
        proof {
            assert forall|q: PictureBlock, field: Seq<u8>|
                field.len() == 4 && data_ok(FlacMetadataBlockData::PICTURE(q)) && #[trigger] picture_bytes(q, field)
                    == b@.subrange(start as int, end as int) implies false by {
                lemma_picture_layout(b@, start as int, end as int, q, field);
            }
        }
        return None;
    }
    let p = PictureBlock {
        picture_type: t.unwrap() as u32,
        mime_type: mime,
        description: desc,
        pict_width: w as u32,
        pict_height: h as u32,
        color_depth: dp as u32,
        number_of_color: nc as u32,
        pict_data: data,
    };
    proof {
        let field0 = b@.subrange(d_end + 16, d_end + 20);
        assert(text_bytes(TextEncoding::UnicodeUtf8, p.mime_type@) == encode_utf8(p.mime_type@));
        assert(encode_utf8(p.mime_type@) == b@.subrange(start + 8, m_end as int));
        assert(encode_utf8(p.description@) == b@.subrange(m_end + 4, d_end as int));
        assert(picture_bytes(p, field0) =~= b@.subrange(start as int, end as int));
        assert forall|q: PictureBlock, field: Seq<u8>|
            field.len() == 4 && data_ok(FlacMetadataBlockData::PICTURE(q)) && #[trigger] picture_bytes(q, field)
                == b@.subrange(start as int, end as int) implies same_picture(p, q) by {
            lemma_picture_layout(b@, start as int, end as int, q, field);
            lemma_be_val_seq(q.pict_width as nat, 4);
            lemma_be_val_seq(q.pict_height as nat, 4);
            lemma_be_val_seq(q.color_depth as nat, 4);
            lemma_be_val_seq(q.number_of_color as nat, 4);
            lemma_be_val_seq(q.picture_type as nat, 4);
        }
    }
    Some(p)
}

/// The bytes of raw "key=value" comments, each with its length.
pub open spec fn raw_pairs(ps: Seq<(Seq<char>, Seq<char>)>) -> Seq<u8>
    decreases ps.len(),
{
    if ps.len() == 0 {
        Seq::empty()
    } else {
        raw_pairs(ps.drop_last()) + le_seq(pair_bytes(ps.last().0, ps.last().1).len(), 4) + pair_bytes(
            ps.last().0,
            ps.last().1,
        )
    }
}

/// The map built by adding the pairs one after the other.
pub open spec fn fold_add(m: VorbisModel, ps: Seq<(Seq<char>, Seq<char>)>) -> VorbisModel
    decreases ps.len(),
{
    if ps.len() == 0 {
        m
    } else {
        let prev = fold_add(m, ps.drop_last());
        add_spec(prev, ps.last().0, ps.last().1)
    }
}

/// No key holds "=".
pub open spec fn keys_plain(ps: Seq<(Seq<char>, Seq<char>)>) -> bool {
    forall|i: int| 0 <= i < ps.len() ==> !encode_utf8(#[trigger] ps[i].0).contains(0x3du8)
}

/// Finds the first "=" in `b[start..end]`.
fn find_eq(b: &[u8], start: usize, end: usize) -> (r: Option<usize>)
    requires
        start <= end <= b@.len(),
    ensures
        r matches Some(k) ==> start <= k < end && b@[k as int] == 0x3d && !b@.subrange(start as int, k as int).contains(0x3du8),
        r is None ==> forall|j: int| start <= j < end ==> b@[j] != 0x3d,
{
    let mut i: usize = start;
    while i < end
        invariant
            start <= i <= end <= b@.len(),
            forall|j: int| start <= j < i ==> b@[j] != 0x3d,
        decreases end - i,
    {
        if b[i] == 0x3d {
            assert(!b@.subrange(start as int, i as int).contains(0x3du8)) by {
                if b@.subrange(start as int, i as int).contains(0x3du8) {
                    let t = choose|t: int| 0 <= t < i - start && b@.subrange(start as int, i as int)[t] == 0x3d;
                    assert(b@[start + t] == 0x3d);
                }
            }
            return Some(i);
        }
        i = i + 1;
    }
    None
}

/// The layout of a Vorbis comment payload with vendor `vd` and raw pairs `ps`.
pub open spec fn vorbis_layout(vd: Seq<char>, ps: Seq<(Seq<char>, Seq<char>)>) -> Seq<u8> {
    le_seq(encode_utf8(vd).len(), 4) + encode_utf8(vd) + le_seq(ps.len(), 4) + raw_pairs(ps)
}

/// Every length in a Vorbis comment payload fits its 32-bit field, and no key holds "=".
pub open spec fn layout_ok(vd: Seq<char>, ps: Seq<(Seq<char>, Seq<char>)>) -> bool {
    &&& keys_plain(ps)
    &&& encode_utf8(vd).len() < 0x1_0000_0000
    &&& ps.len() < 0x1_0000_0000
    &&& forall|i: int| 0 <= i < ps.len() ==> #[trigger] pair_bytes(ps[i].0, ps[i].1).len() < 0x1_0000_0000
}

/// The raw pairs of a prefix of a list open the raw pairs of the list.
proof fn lemma_raw_pairs_prefix(ps: Seq<(Seq<char>, Seq<char>)>, j: int)
    requires
        0 <= j <= ps.len(),
    ensures
        raw_pairs(ps.take(j)).len() <= raw_pairs(ps).len(),
        raw_pairs(ps).subrange(0, raw_pairs(ps.take(j)).len() as int) == raw_pairs(ps.take(j)),
    decreases ps.len(),
{
    if j == ps.len() {
        assert(ps.take(j) =~= ps);
        assert(raw_pairs(ps).subrange(0, raw_pairs(ps).len() as int) =~= raw_pairs(ps));
    } else {
        lemma_raw_pairs_prefix(ps.drop_last(), j);
        assert(ps.drop_last().take(j) =~= ps.take(j));
        let r = raw_pairs(ps);
        let d = raw_pairs(ps.drop_last());
        let n = raw_pairs(ps.take(j)).len() as int;
        assert(r.subrange(0, n) =~= d.subrange(0, n));
    }
}

/// Step `k` of reading raw pairs: the pair and its length prefix follow those before it.
proof fn lemma_raw_pairs_step(ps: Seq<(Seq<char>, Seq<char>)>, k: int)
    requires
        0 <= k < ps.len(),
    ensures
        raw_pairs(ps.take(k + 1)) == raw_pairs(ps.take(k)) + le_seq(pair_bytes(ps[k].0, ps[k].1).len(), 4)
            + pair_bytes(ps[k].0, ps[k].1),
{
    assert(ps.take(k + 1).drop_last() =~= ps.take(k));
}

proof fn lemma_le4_inj(a: nat, c: nat)
    requires
        a < 0x1_0000_0000,
        c < 0x1_0000_0000,
        le_seq(a, 4) == le_seq(c, 4),
    ensures
        a == c,
{
    lemma_pow_facts();
    crate::bytes::lemma_le_val_seq(a, 4);
    crate::bytes::lemma_le_val_seq(c, 4);
}

proof fn lemma_step_bytes(b: Seq<u8>, v_end: int, q: int, end: int, ps: Seq<(Seq<char>, Seq<char>)>, k: int)
    requires
        0 <= v_end + 4 <= q <= end <= b.len(),
        0 <= k < ps.len(),
        b.subrange(v_end + 4, end) == raw_pairs(ps),
        raw_pairs(ps.take(k)) == b.subrange(v_end + 4, q),
    ensures
        ({
            let pb = pair_bytes(ps[k].0, ps[k].1);
            &&& q + 4 + pb.len() <= end
            &&& b.subrange(q, q + 4) == le_seq(pb.len(), 4)
            &&& b.subrange(q + 4, q + 4 + pb.len()) == pb
        }),
{
    let pb = pair_bytes(ps[k].0, ps[k].1);
    lemma_raw_pairs_step(ps, k);
    lemma_raw_pairs_prefix(ps, k + 1);
    crate::bytes::lemma_le_seq_len(pb.len(), 4);
    let rp = raw_pairs(ps);
    let pre = raw_pairs(ps.take(k));
    let l4 = le_seq(pb.len(), 4);
    let whole = pre + l4 + pb;
    assert(rp.subrange(0, whole.len() as int) == whole);
    assert(pre.len() == q - (v_end + 4));
    assert forall|t: int| 0 <= t < 4 implies b[q + t] == l4[t] by {
        assert(b[q + t] == rp[pre.len() + t]);
        assert(rp[pre.len() + t] == whole[pre.len() + t]);
    }
    assert(b.subrange(q, q + 4) =~= l4);
    assert forall|t: int| 0 <= t < pb.len() implies b[q + 4 + t] == pb[t] by {
        assert(b[q + 4 + t] == rp[pre.len() + 4 + t]);
        assert(rp[pre.len() + 4 + t] == whole[pre.len() + 4 + t]);
    }
    assert(b.subrange(q + 4, q + 4 + pb.len()) =~= pb);
}

proof fn lemma_pair_split(b: Seq<u8>, c_start: int, c_end: int, key: Seq<char>, value: Seq<char>)
    requires
        0 <= c_start <= c_end <= b.len(),
        b.subrange(c_start, c_end) == pair_bytes(key, value),
        !encode_utf8(key).contains(0x3du8),
    ensures
        b[c_start + encode_utf8(key).len()] == 0x3d,
        forall|j: int| c_start <= j < c_start + encode_utf8(key).len() ==> b[j] != 0x3d,
        b.subrange(c_start, c_start + encode_utf8(key).len()) == encode_utf8(key),
        b.subrange(c_start + encode_utf8(key).len() + 1, c_end) == encode_utf8(value),
{
    let kb = encode_utf8(key);
    let vb = encode_utf8(value);
    let pb = pair_bytes(key, value);
    let sb = b.subrange(c_start, c_end);
    assert(pb.len() == kb.len() + 1 + vb.len());
    assert(sb.len() == c_end - c_start);
    assert forall|j: int| c_start <= j < c_start + kb.len() implies b[j] != 0x3d by {
        assert(b[j] == sb[j - c_start]);
        assert(b[j] == pb[j - c_start]);
        assert(pb[j - c_start] == kb[j - c_start]);
    }
    assert(b[c_start + kb.len()] == sb[kb.len() as int]);
    assert(b[c_start + kb.len()] == pb[kb.len() as int]);
    assert forall|t: int| 0 <= t < kb.len() implies b[c_start + t] == kb[t] by {
        assert(b[c_start + t] == sb[t]);
        assert(pb[t] == kb[t]);
    }
    assert(b.subrange(c_start, c_start + kb.len()) =~= kb);
    assert forall|t: int| 0 <= t < vb.len() implies b[c_start + kb.len() + 1 + t] == vb[t] by {
        assert(b[c_start + kb.len() + 1 + t] == sb[kb.len() + 1 + t]);
        assert(pb[kb.len() + 1 + t] == vb[t]);
    }
    assert(b.subrange(c_start + kb.len() + 1, c_end) =~= vb);
}

/// Decodes the payload of a VORBISCOMMENT block: the vendor string, then the comments,
/// each added to the map in turn.
#[verifier::rlimit(100)]
fn decode_vorbis(b: &[u8], start: usize, end: usize) -> (r: Option<VorbisCommentBlock>)
    requires
        start <= end <= b@.len(),
    ensures
        r matches Some(v) ==> v.comments.wf() && exists|ps: Seq<(Seq<char>, Seq<char>)>|
            keys_plain(ps) && #[trigger] fold_add(Seq::empty(), ps) == v.comments@ && le_seq(
                encode_utf8(v.vendor_name@).len(),
                4,
            ) + encode_utf8(v.vendor_name@) + le_seq(ps.len(), 4) + raw_pairs(ps) == b@.subrange(
                start as int,
                end as int,
            ),
        forall|vd: Seq<char>, ps: Seq<(Seq<char>, Seq<char>)>|
            layout_ok(vd, ps) && #[trigger] vorbis_layout(vd, ps) == b@.subrange(start as int, end as int)
                ==> (r matches Some(v) && v.vendor_name@ == vd && v.comments@ == fold_add(Seq::empty(), ps)),
{
    let ghost sub = b@.subrange(start as int, end as int);
    proof {
        lemma_pow_facts();
        assert forall|vd: Seq<char>, ps: Seq<(Seq<char>, Seq<char>)>|
            layout_ok(vd, ps) && #[trigger] vorbis_layout(vd, ps) == sub implies ({
                let vl = encode_utf8(vd).len() as int;
                &&& start + 8 + vl <= end
                &&& b@.subrange(start as int, start + 4) == le_seq(vl as nat, 4)
                &&& b@.subrange(start + 4, start + 4 + vl) == encode_utf8(vd)
                &&& b@.subrange(start + 4 + vl, start + 8 + vl) == le_seq(ps.len(), 4)
                &&& b@.subrange(start + 8 + vl, end as int) == raw_pairs(ps)
            }) by {
            let vl = encode_utf8(vd).len();
            crate::bytes::lemma_le_seq_len(vl, 4);
            crate::bytes::lemma_le_seq_len(ps.len(), 4);
            let x0 = le_seq(vl, 4);
            let x1 = encode_utf8(vd);
            let x2 = le_seq(ps.len(), 4);
            let x3 = raw_pairs(ps);
            lemma_piece_at(b@, start as int, end as int, Seq::empty(), x0, x1 + x2 + x3);
            lemma_piece_at(b@, start as int, end as int, x0, x1, x2 + x3);
            lemma_piece_at(b@, start as int, end as int, x0 + x1, x2, x3);
            lemma_piece_at(b@, start as int, end as int, x0 + x1 + x2, x3, Seq::empty());
        }
    }
    let vl = match field_le4(b, start, end) {
        Some(v) => v,
        None => {
            return None;
        },
    };
    let p1 = start + 4;
    if vl > (end - p1) as u64 {
        proof {
            assert forall|vd: Seq<char>, ps: Seq<(Seq<char>, Seq<char>)>|
                layout_ok(vd, ps) && #[trigger] vorbis_layout(vd, ps) == sub implies false by {
                lemma_le4_inj(vl as nat, encode_utf8(vd).len());
            }
        }
        return None;
    }
    let v_end = p1 + vl as usize;
    let vendor = match decode_text(b, p1, v_end, TextEncoding::UnicodeUtf8) {
        Some(v) => v,
        None => {
            proof {
                assert forall|vd: Seq<char>, ps: Seq<(Seq<char>, Seq<char>)>|
                    layout_ok(vd, ps) && #[trigger] vorbis_layout(vd, ps) == sub implies false by {
                    lemma_le4_inj(vl as nat, encode_utf8(vd).len());
                    assert(text_bytes(TextEncoding::UnicodeUtf8, vd) == encode_utf8(vd));
                }
            }
            return None;
        },
    };
    let count = match field_le4(b, v_end, end) {
        Some(c) => c,
        None => {
            proof {
                assert forall|vd: Seq<char>, ps: Seq<(Seq<char>, Seq<char>)>|
                    layout_ok(vd, ps) && #[trigger] vorbis_layout(vd, ps) == sub implies false by {
                    lemma_le4_inj(vl as nat, encode_utf8(vd).len());
                }
            }
            return None;
        },
    };
    proof {
        assert forall|vd: Seq<char>, ps: Seq<(Seq<char>, Seq<char>)>|
            layout_ok(vd, ps) && #[trigger] vorbis_layout(vd, ps) == sub implies vd == vendor@ && count
                == ps.len() && b@.subrange(v_end + 4, end as int) == raw_pairs(ps) by {
            lemma_le4_inj(vl as nat, encode_utf8(vd).len());
            assert(text_bytes(TextEncoding::UnicodeUtf8, vd) == encode_utf8(vd));
            lemma_le4_inj(count as nat, ps.len());
        }
    }
    let mut map = VorbisVector::new();
    let ghost mut cur: Seq<(Seq<char>, Seq<char>)> = Seq::empty();
    let mut q: usize = v_end + 4;
    let mut k: u64 = 0;
    while k < count
        invariant
            v_end + 4 <= q <= end <= b@.len(),
            sub == b@.subrange(start as int, end as int),
            k <= count,
            cur.len() == k,
            map.wf(),
            keys_plain(cur),
            fold_add(Seq::empty(), cur) == map@,
            raw_pairs(cur) == b@.subrange(v_end + 4, q as int),
            forall|vd: Seq<char>, ps: Seq<(Seq<char>, Seq<char>)>|
                layout_ok(vd, ps) && #[trigger] vorbis_layout(vd, ps) == sub ==> count == ps.len()
                    && b@.subrange(v_end + 4, end as int) == raw_pairs(ps) && cur == ps.take(k as int),
        decreases count - k,
    {
        proof {
            assert forall|vd: Seq<char>, ps: Seq<(Seq<char>, Seq<char>)>|
                layout_ok(vd, ps) && #[trigger] vorbis_layout(vd, ps) == sub implies ({
                    let pb = pair_bytes(ps[k as int].0, ps[k as int].1);
                    &&& q + 4 + pb.len() <= end
                    &&& b@.subrange(q as int, q + 4) == le_seq(pb.len(), 4)
                    &&& b@.subrange(q + 4, q + 4 + pb.len()) == pb
                }) by {
                lemma_step_bytes(b@, v_end as int, q as int, end as int, ps, k as int);
            }
        }
        let len = match field_le4(b, q, end) {
            Some(l) => l,
            None => {
                return None;
            },
        };
        let c_start = q + 4;
        if len > (end - c_start) as u64 {
            proof {
                assert forall|vd: Seq<char>, ps: Seq<(Seq<char>, Seq<char>)>|
                    layout_ok(vd, ps) && #[trigger] vorbis_layout(vd, ps) == sub implies false by {
                    let pb = pair_bytes(ps[k as int].0, ps[k as int].1);
                    assert(pb.len() < 0x1_0000_0000);
                    lemma_le4_inj(len as nat, pb.len());
                }
            }
            return None;
        }
        let c_end = c_start + len as usize;
        proof {
            assert forall|vd: Seq<char>, ps: Seq<(Seq<char>, Seq<char>)>|
                layout_ok(vd, ps) && #[trigger] vorbis_layout(vd, ps) == sub implies ({
                    let kb = encode_utf8(ps[k as int].0);
                    &&& b@.subrange(c_start as int, c_end as int) == pair_bytes(ps[k as int].0, ps[k as int].1)
                    &&& b@[c_start + kb.len()] == 0x3d
                    &&& forall|j: int| c_start <= j < c_start + kb.len() ==> b@[j] != 0x3d
                    &&& b@.subrange(c_start as int, c_start + kb.len()) == kb
                    &&& b@.subrange(c_start + kb.len() + 1, c_end as int) == encode_utf8(ps[k as int].1)
                }) by {
                let pb = pair_bytes(ps[k as int].0, ps[k as int].1);
                assert(pb.len() < 0x1_0000_0000);
                lemma_le4_inj(len as nat, pb.len());
                assert(!encode_utf8(ps[k as int].0).contains(0x3du8));
                lemma_pair_split(b@, c_start as int, c_end as int, ps[k as int].0, ps[k as int].1);
            }
        }
        let eq = match find_eq(b, c_start, c_end) {
            Some(e) => e,
            None => {
                proof {
                    assert forall|vd: Seq<char>, ps: Seq<(Seq<char>, Seq<char>)>|
                        layout_ok(vd, ps) && #[trigger] vorbis_layout(vd, ps) == sub implies false by {
                        let kb = encode_utf8(ps[k as int].0);
                        assert(b@[c_start + kb.len()] == 0x3d);
                    }
                }
                return None;
            },
        };
        proof {
            assert forall|vd: Seq<char>, ps: Seq<(Seq<char>, Seq<char>)>|
                layout_ok(vd, ps) && #[trigger] vorbis_layout(vd, ps) == sub implies eq == c_start
                    + encode_utf8(ps[k as int].0).len() by {
                let kb = encode_utf8(ps[k as int].0);
                if eq < c_start + kb.len() {
                    assert(b@[eq as int] != 0x3d);
                }
                if eq > c_start + kb.len() {
                    assert(b@.subrange(c_start as int, eq as int)[kb.len() as int] == 0x3d);
                }
            }
        }
        let key = match decode_text(b, c_start, eq, TextEncoding::UnicodeUtf8) {
            Some(x) => x,
            None => {
                proof {
                    assert forall|vd: Seq<char>, ps: Seq<(Seq<char>, Seq<char>)>|
                        layout_ok(vd, ps) && #[trigger] vorbis_layout(vd, ps) == sub implies false by {
                        assert(text_bytes(TextEncoding::UnicodeUtf8, ps[k as int].0) == encode_utf8(ps[k as int].0));
                    }
                }
                return None;
            },
        };
        let value = match decode_text(b, eq + 1, c_end, TextEncoding::UnicodeUtf8) {
            Some(x) => x,
            None => {
                proof {
                    assert forall|vd: Seq<char>, ps: Seq<(Seq<char>, Seq<char>)>|
                        layout_ok(vd, ps) && #[trigger] vorbis_layout(vd, ps) == sub implies false by {
                        assert(text_bytes(TextEncoding::UnicodeUtf8, ps[k as int].1) == encode_utf8(ps[k as int].1));
                    }
                }
                return None;
            },
        };
        map.add(key.as_str(), value.as_str());
        proof {
            let pair = (key@, value@);
            let old_cur = cur;
            assert forall|vd: Seq<char>, ps: Seq<(Seq<char>, Seq<char>)>|
                layout_ok(vd, ps) && #[trigger] vorbis_layout(vd, ps) == sub implies ps[k as int] == pair by {
                assert(text_bytes(TextEncoding::UnicodeUtf8, ps[k as int].0) == encode_utf8(ps[k as int].0));
                assert(text_bytes(TextEncoding::UnicodeUtf8, ps[k as int].1) == encode_utf8(ps[k as int].1));
            }
            cur = cur.push(pair);
            assert(cur.drop_last() =~= old_cur);
            assert(text_bytes(TextEncoding::UnicodeUtf8, key@) == encode_utf8(key@));
            assert(pair_bytes(key@, value@) =~= b@.subrange(c_start as int, c_end as int));
            assert(b@.subrange(v_end + 4, c_end as int) =~= b@.subrange(v_end + 4, q as int)
                + b@.subrange(q as int, c_start as int) + b@.subrange(c_start as int, c_end as int));
            assert forall|i: int| 0 <= i < cur.len() implies !encode_utf8(#[trigger] cur[i].0).contains(0x3du8) by {
                if i < old_cur.len() {
                    assert(cur[i] == old_cur[i]);
                } else {
                    assert(!b@.subrange(c_start as int, eq as int).contains(0x3du8));
                }
            }
            assert forall|vd: Seq<char>, ps: Seq<(Seq<char>, Seq<char>)>|
                layout_ok(vd, ps) && #[trigger] vorbis_layout(vd, ps) == sub implies cur == ps.take(k + 1) by {
                assert(ps[k as int] == pair);
                assert(ps.take(k + 1) =~= ps.take(k as int).push(ps[k as int]));
            }
        }
        q = c_end;
        k = k + 1;
    }
    if q != end {
        proof {
            assert forall|vd: Seq<char>, ps: Seq<(Seq<char>, Seq<char>)>|
                layout_ok(vd, ps) && #[trigger] vorbis_layout(vd, ps) == sub implies false by {
                assert(ps.take(ps.len() as int) =~= ps);
            }
        }
        return None;
    }
    proof {
        assert(text_bytes(TextEncoding::UnicodeUtf8, vendor@) == encode_utf8(vendor@));
        assert(b@.subrange(start as int, end as int) =~= b@.subrange(start as int, p1 as int)
            + b@.subrange(p1 as int, v_end as int) + b@.subrange(v_end as int, v_end + 4)
            + b@.subrange(v_end + 4, end as int));
        assert forall|vd: Seq<char>, ps: Seq<(Seq<char>, Seq<char>)>|
            layout_ok(vd, ps) && #[trigger] vorbis_layout(vd, ps) == sub implies cur == ps by {
            assert(ps.take(ps.len() as int) =~= ps);
        }
    }
    Some(VorbisCommentBlock { vendor_name: vendor, comments: map })
}

impl FlacMetadataBlockData {
    /// Decodes the payload of a block of type `t` from `b[start..end]`.
    ///
    /// What decodes writes back as the same bytes, but for the Vorbis comments, whose map is
    /// built by adding each comment in turn, for a picture's data-length field, which is
    /// recomputed, and for padding, which is written as zeros. Every payload that can be
    /// written decodes back to the same content (for Vorbis comments: when no key holds "="
    /// and no key repeats a value).
    pub fn decode(b: &[u8], start: usize, end: usize, t: FlacMetadataBlockType) -> (r: Option<FlacMetadataBlockData>)
        requires
            start <= end <= b@.len(),
        ensures
            r matches Some(d) ==> d.block_type_spec() == t && data_ok(d),
            r matches Some(d) ==> match d {
                FlacMetadataBlockData::PADDING(p) => p.nb_bytes == end - start,
                FlacMetadataBlockData::VORBISCOMMENT(v) => v.comments.wf() && exists|ps: Seq<(Seq<char>, Seq<char>)>|
                    keys_plain(ps) && #[trigger] fold_add(Seq::empty(), ps) == v.comments@ && le_seq(
                        encode_utf8(v.vendor_name@).len(),
                        4,
                    ) + encode_utf8(v.vendor_name@) + le_seq(ps.len(), 4) + raw_pairs(ps) == b@.subrange(
                        start as int,
                        end as int,
                    ),
                FlacMetadataBlockData::PICTURE(p) => exists|field: Seq<u8>|
                    field.len() == 4 && picture_bytes(p, field) == b@.subrange(start as int, end as int),
                _ => data_bytes(d) == b@.subrange(start as int, end as int),
            },
            t == FlacMetadataBlockType::PADDING ==> r is Some,
            t == FlacMetadataBlockType::STREAMINFO && end - start == 34 ==> r is Some,
            t == FlacMetadataBlockType::SEEKTABLE && (end - start) % 18 == 0 ==> r is Some,
            t == FlacMetadataBlockType::APPLICATION && end - start >= 4 ==> r is Some,
            forall|v: FlacMetadataBlockData|
                !(v is VORBISCOMMENT) && v.block_type_spec() == t && data_ok(v) && #[trigger] data_bytes(v)
                    == b@.subrange(start as int, end as int) ==> (r matches Some(d) && same_data(d, v)),
            forall|q: PictureBlock, field: Seq<u8>|
                t == FlacMetadataBlockType::PICTURE && field.len() == 4 && data_ok(FlacMetadataBlockData::PICTURE(q))
                    && #[trigger] picture_bytes(q, field) == b@.subrange(start as int, end as int)
                    ==> (r matches Some(FlacMetadataBlockData::PICTURE(p)) && same_picture(p, q)),
            forall|vd: Seq<char>, m: VorbisModel|
                t == FlacMetadataBlockType::VORBISCOMMENT && vorbis_ok(vd, m) && values_distinct(m) && (forall|i: int|
                    0 <= i < m.len() ==> !encode_utf8(#[trigger] m[i].0).contains(0x3du8)) && #[trigger] vorbis_payload(
                    vd,
                    m,
                ) == b@.subrange(start as int, end as int) ==> (r matches Some(
                    FlacMetadataBlockData::VORBISCOMMENT(v),
                ) && v.vendor_name@ == vd && v.comments@ == m),
    {
        let r = self_decode(b, start, end, t);
        proof {
            assert forall|vd: Seq<char>, m: VorbisModel|
                t == FlacMetadataBlockType::VORBISCOMMENT && vorbis_ok(vd, m) && values_distinct(m) && (forall|i: int|
                    0 <= i < m.len() ==> !encode_utf8(#[trigger] m[i].0).contains(0x3du8)) && #[trigger] vorbis_payload(
                    vd,
                    m,
                ) == b@.subrange(start as int, end as int) implies (r matches Some(
                    FlacMetadataBlockData::VORBISCOMMENT(v),
                ) && v.vendor_name@ == vd && v.comments@ == m) by {
                lemma_vorbis_payload_layout(vd, m);
                lemma_vorbis_rebuild(m);
                assert(vorbis_layout(vd, flatten(m)) == b@.subrange(start as int, end as int));
            }
        }
        proof {
            assert forall|v: FlacMetadataBlockData|
                !(v is VORBISCOMMENT) && v.block_type_spec() == t && data_ok(v) && #[trigger] data_bytes(v)
                    == b@.subrange(start as int, end as int) implies (r matches Some(d) && same_data(d, v)) by {
                lemma_pow_facts();
                match v {
                    FlacMetadataBlockData::STREAMINFO(x) => {
                        lemma_be_seq_len(x.min_block_size as nat, 2);
                        lemma_be_seq_len(x.max_block_size as nat, 2);
                        lemma_be_seq_len(x.min_frame_size as nat % 0x100_0000, 3);
                        lemma_be_seq_len(x.max_frame_size as nat % 0x100_0000, 3);
                        lemma_be_seq_len(x.sample_info as nat, 8);
                        assert(data_bytes(v).len() == 34);
                    },
                    FlacMetadataBlockData::APPLICATION(x) => {
                        lemma_be_seq_len(x.app_id as nat, 4);
                        assert(data_bytes(v).len() >= 4);
                    },
                    FlacMetadataBlockData::SEEKTABLE(x) => {
                        lemma_seek_points_len(x.seek_points@);
                        let k = x.seek_points@.len();
                        assert((18 * k) % 18 == 0) by (nonlinear_arith);
                    },
                    _ => {},
                }
                assert(b@.subrange(start as int, end as int).len() == end - start);
                if let FlacMetadataBlockData::PICTURE(q) = v {
                    crate::bytes::lemma_be_seq_len(q.pict_data@.len(), 4);
                    assert(picture_bytes(q, be_seq(q.pict_data@.len(), 4)) == b@.subrange(start as int, end as int));
                }
                if let FlacMetadataBlockData::CUESHEET(c) = v {
                    assert(data_bytes(FlacMetadataBlockData::CUESHEET(c)) == b@.subrange(start as int, end as int));
                }
                let d = r->0;
                if !(v is PADDING) && !(v is PICTURE) && !(v is CUESHEET) {
                    lemma_data_bytes_inj(v, d);
                    lemma_same_data_sym(v, d);
                }
            }
        }
        r
    }
}

proof fn lemma_same_data_sym(a: FlacMetadataBlockData, b: FlacMetadataBlockData)
    requires
        same_data(a, b),
    ensures
        same_data(b, a),
{
}

/// The decoding behind `FlacMetadataBlockData::decode`.
fn self_decode(b: &[u8], start: usize, end: usize, t: FlacMetadataBlockType) -> (r: Option<FlacMetadataBlockData>)
    requires
        start <= end <= b@.len(),
    ensures
        r matches Some(d) ==> d.block_type_spec() == t && data_ok(d),
        r matches Some(d) ==> match d {
            FlacMetadataBlockData::PADDING(p) => p.nb_bytes == end - start,
            FlacMetadataBlockData::VORBISCOMMENT(v) => v.comments.wf() && exists|ps: Seq<(Seq<char>, Seq<char>)>|
                keys_plain(ps) && #[trigger] fold_add(Seq::empty(), ps) == v.comments@ && le_seq(
                    encode_utf8(v.vendor_name@).len(),
                    4,
                ) + encode_utf8(v.vendor_name@) + le_seq(ps.len(), 4) + raw_pairs(ps) == b@.subrange(
                    start as int,
                    end as int,
                ),
            FlacMetadataBlockData::PICTURE(p) => exists|field: Seq<u8>|
                field.len() == 4 && picture_bytes(p, field) == b@.subrange(start as int, end as int),
            _ => data_bytes(d) == b@.subrange(start as int, end as int),
        },
        t == FlacMetadataBlockType::PADDING ==> r is Some,
        t == FlacMetadataBlockType::STREAMINFO && end - start == 34 ==> r is Some,
        t == FlacMetadataBlockType::SEEKTABLE && (end - start) % 18 == 0 ==> r is Some,
        t == FlacMetadataBlockType::APPLICATION && end - start >= 4 ==> r is Some,
        forall|vd: Seq<char>, ps: Seq<(Seq<char>, Seq<char>)>|
            t == FlacMetadataBlockType::VORBISCOMMENT && layout_ok(vd, ps) && #[trigger] vorbis_layout(vd, ps)
                == b@.subrange(start as int, end as int) && vorbis_ok(vd, fold_add(Seq::empty(), ps)) ==> (r matches Some(
                FlacMetadataBlockData::VORBISCOMMENT(v),
            ) && v.vendor_name@ == vd && v.comments@ == fold_add(Seq::empty(), ps)),
        forall|c: CueSheetBlock|
            t == FlacMetadataBlockType::CUESHEET && data_ok(FlacMetadataBlockData::CUESHEET(c))
                && #[trigger] data_bytes(FlacMetadataBlockData::CUESHEET(c)) == b@.subrange(start as int, end as int)
                ==> (r matches Some(FlacMetadataBlockData::CUESHEET(d)) && same_cue(d, c)),
        forall|q: PictureBlock, field: Seq<u8>|
            t == FlacMetadataBlockType::PICTURE && field.len() == 4 && data_ok(FlacMetadataBlockData::PICTURE(q))
                && #[trigger] picture_bytes(q, field) == b@.subrange(start as int, end as int)
                ==> (r matches Some(FlacMetadataBlockData::PICTURE(p)) && same_picture(p, q)),
{
    {
        match t {
            FlacMetadataBlockType::STREAMINFO => match decode_stream_info(b, start, end) {
                Some(s) => Some(FlacMetadataBlockData::STREAMINFO(s)),
                None => None,
            },
            FlacMetadataBlockType::PADDING => Some(
                FlacMetadataBlockData::PADDING(PaddingBlock { nb_bytes: end - start }),
            ),
            FlacMetadataBlockType::APPLICATION => match decode_application(b, start, end) {
                Some(a) => Some(FlacMetadataBlockData::APPLICATION(a)),
                None => None,
            },
            FlacMetadataBlockType::SEEKTABLE => match decode_seek_table(b, start, end) {
                Some(s) => Some(FlacMetadataBlockData::SEEKTABLE(s)),
                None => None,
            },
            FlacMetadataBlockType::VORBISCOMMENT => match decode_vorbis(b, start, end) {
                Some(v) => {
                    if v.vendor_name.as_str().as_bytes().len() as u64 >= 0x1_0000_0000u64 || !v.comments.pairs_fit() {
                        return None;
                    }
                    Some(FlacMetadataBlockData::VORBISCOMMENT(v))
                },
                None => None,
            },
            FlacMetadataBlockType::CUESHEET => match decode_cue_sheet(b, start, end) {
                Some(c) => Some(FlacMetadataBlockData::CUESHEET(c)),
                None => None,
            },
            FlacMetadataBlockType::PICTURE => match decode_picture_block(b, start, end) {
                Some(p) => Some(FlacMetadataBlockData::PICTURE(p)),
                None => None,
            },
        }
    }
}

impl VorbisVector {
    /// Whether the number of values, and the length of every comment, fit in 32 bits.
    pub fn pairs_fit(&self) -> (r: bool)
        ensures
            r == (pair_count(self@) < 0x1_0000_0000 && forall|i: int, j: int|
                0 <= i < self@.len() && 0 <= j < self@[i].1.len() ==> #[trigger] pair_bytes(
                    self@[i].0,
                    self@[i].1[j],
                ).len() < 0x1_0000_0000),
    {
        let mut n: u64 = 0;
        let mut i: usize = 0;
        while i < self.comments.len()
            invariant
                i <= self@.len(),
                n as nat == pair_count(self@.subrange(0, i as int)),
                n < 0x1_0000_0000,
                forall|a: int, c: int|
                    0 <= a < i && 0 <= c < self@[a].1.len() ==> #[trigger] pair_bytes(
                        self@[a].0,
                        self@[a].1[c],
                    ).len() < 0x1_0000_0000,
            decreases self@.len() - i,
        {
            let k = &self.comments[i].0;
            let vs = &self.comments[i].1;
            let mut j: usize = 0;
            while j < vs.len()
                invariant
                    i < self@.len(),
                    self@[i as int].0 == k@,
                    self@[i as int].1 == vs@.map_values(|s: String| s@),
                    j <= vs@.len(),
                    forall|c: int| 0 <= c < j ==> #[trigger] pair_bytes(self@[i as int].0, self@[i as int].1[c]).len()
                        < 0x1_0000_0000,
                decreases vs@.len() - j,
            {
                let kl = k.as_str().as_bytes().len() as u64;
                let vl = vs[j].as_str().as_bytes().len() as u64;
                assert(self@[i as int].1[j as int] == vs@[j as int]@);
                if kl >= 0x1_0000_0000u64 || vl >= 0x1_0000_0000u64 || kl + vl + 1 >= 0x1_0000_0000u64 {
                    assert(pair_bytes(self@[i as int].0, self@[i as int].1[j as int]).len() >= 0x1_0000_0000);
                    return false;
                }
                j = j + 1;
            }
            proof {
                assert(self@.subrange(0, i + 1).drop_last() =~= self@.subrange(0, i as int));
            }
            if vs.len() as u64 >= 0x1_0000_0000 - n {
                proof {
                    lemma_pair_count_prefix(self@, i + 1);
                }
                return false;
            }
            n = n + vs.len() as u64;
            i = i + 1;
        }
        assert(self@.subrange(0, self@.len() as int) =~= self@);
        true
    }
}

/// Two payloads hold the same content.
pub open spec fn same_data(a: FlacMetadataBlockData, b: FlacMetadataBlockData) -> bool {
    match (a, b) {
        (FlacMetadataBlockData::STREAMINFO(x), FlacMetadataBlockData::STREAMINFO(y)) => x.min_block_size
            == y.min_block_size && x.max_block_size == y.max_block_size && x.min_frame_size
            == y.min_frame_size && x.max_frame_size == y.max_frame_size && x.sample_info
            == y.sample_info && x.md5_signature@ == y.md5_signature@,
        (FlacMetadataBlockData::PADDING(x), FlacMetadataBlockData::PADDING(y)) => x.nb_bytes == y.nb_bytes,
        (FlacMetadataBlockData::APPLICATION(x), FlacMetadataBlockData::APPLICATION(y)) => x.app_id
            == y.app_id && x.data@ == y.data@,
        (FlacMetadataBlockData::SEEKTABLE(x), FlacMetadataBlockData::SEEKTABLE(y)) => x.seek_points@
            == y.seek_points@,
        (FlacMetadataBlockData::PICTURE(x), FlacMetadataBlockData::PICTURE(y)) => same_picture(x, y),
        (FlacMetadataBlockData::CUESHEET(x), FlacMetadataBlockData::CUESHEET(y)) => same_cue(x, y),
        (FlacMetadataBlockData::VORBISCOMMENT(x), FlacMetadataBlockData::VORBISCOMMENT(y)) => x.vendor_name@
            == y.vendor_name@ && x.comments@ == y.comments@,
        _ => false,
    }
}

proof fn lemma_be_inj(a: nat, b: nat, len: nat)
    requires
        a < pow256(len),
        b < pow256(len),
        be_seq(a, len) == be_seq(b, len),
    ensures
        a == b,
{
    lemma_be_val_seq(a, len);
    lemma_be_val_seq(b, len);
}

proof fn lemma_seek_points_len(ps: Seq<SeekPoint>)
    ensures
        seek_points_bytes(ps).len() == 18 * ps.len(),
    decreases ps.len(),
{
    if ps.len() > 0 {
        lemma_seek_points_len(ps.drop_last());
        lemma_be_seq_len(ps.last().sample_number_of_first_sample as nat, 8);
        lemma_be_seq_len(ps.last().offset as nat, 8);
        lemma_be_seq_len(ps.last().number_of_sample as nat, 2);
    }
}

/// Seek tables with the same bytes hold the same points.
pub proof fn lemma_seek_points_inj(ps: Seq<SeekPoint>, qs: Seq<SeekPoint>)
    requires
        seek_points_bytes(ps) == seek_points_bytes(qs),
    ensures
        ps == qs,
    decreases ps.len(),
{
    lemma_seek_points_len(ps);
    lemma_seek_points_len(qs);
    lemma_pow_facts();
    if ps.len() > 0 {
        let a = ps.last();
        let c = qs.last();
        let bs = seek_points_bytes(ps);
        let n = bs.len() as int;
        lemma_seek_points_len(ps.drop_last());
        lemma_seek_points_len(qs.drop_last());
        let pa = seek_point_bytes(a);
        let pc = seek_point_bytes(c);
        assert(bs.subrange(n - 18, n) =~= pa);
        assert(seek_points_bytes(qs).subrange(n - 18, n) =~= pc);
        assert(bs.subrange(0, n - 18) =~= seek_points_bytes(ps.drop_last()));
        assert(seek_points_bytes(qs).subrange(0, n - 18) =~= seek_points_bytes(qs.drop_last()));
        lemma_be_seq_len(a.sample_number_of_first_sample as nat, 8);
        lemma_be_seq_len(a.offset as nat, 8);
        lemma_be_seq_len(a.number_of_sample as nat, 2);
        lemma_be_seq_len(c.sample_number_of_first_sample as nat, 8);
        lemma_be_seq_len(c.offset as nat, 8);
        lemma_be_seq_len(c.number_of_sample as nat, 2);
        assert(pa.subrange(0, 8) =~= be_seq(a.sample_number_of_first_sample as nat, 8));
        assert(pc.subrange(0, 8) =~= be_seq(c.sample_number_of_first_sample as nat, 8));
        assert(pa.subrange(8, 16) =~= be_seq(a.offset as nat, 8));
        assert(pc.subrange(8, 16) =~= be_seq(c.offset as nat, 8));
        assert(pa.subrange(16, 18) =~= be_seq(a.number_of_sample as nat, 2));
        assert(pc.subrange(16, 18) =~= be_seq(c.number_of_sample as nat, 2));
        lemma_be_inj(a.sample_number_of_first_sample as nat, c.sample_number_of_first_sample as nat, 8);
        lemma_be_inj(a.offset as nat, c.offset as nat, 8);
        lemma_be_inj(a.number_of_sample as nat, c.number_of_sample as nat, 2);
        lemma_seek_points_inj(ps.drop_last(), qs.drop_last());
        assert(ps =~= ps.drop_last().push(a));
        assert(qs =~= qs.drop_last().push(c));
    }
}

/// For STREAMINFO, PADDING, APPLICATION and SEEKTABLE payloads, equal bytes mean equal content.
pub proof fn lemma_data_bytes_inj(a: FlacMetadataBlockData, b: FlacMetadataBlockData)
    requires
        a.block_type_spec() == b.block_type_spec(),
        a is STREAMINFO || a is APPLICATION || a is SEEKTABLE || a is PADDING,
        data_ok(a),
        data_ok(b),
        data_bytes(a) == data_bytes(b),
    ensures
        same_data(a, b),
{
    lemma_pow_facts();
    match (a, b) {
        (FlacMetadataBlockData::STREAMINFO(x), FlacMetadataBlockData::STREAMINFO(y)) => {
            let bx = data_bytes(a);
            lemma_be_seq_len(x.min_block_size as nat, 2);
            lemma_be_seq_len(x.max_block_size as nat, 2);
            lemma_be_seq_len(x.min_frame_size as nat % 0x100_0000, 3);
            lemma_be_seq_len(x.max_frame_size as nat % 0x100_0000, 3);
            lemma_be_seq_len(x.sample_info as nat, 8);
            lemma_be_seq_len(y.min_block_size as nat, 2);
            lemma_be_seq_len(y.max_block_size as nat, 2);
            lemma_be_seq_len(y.min_frame_size as nat % 0x100_0000, 3);
            lemma_be_seq_len(y.max_frame_size as nat % 0x100_0000, 3);
            lemma_be_seq_len(y.sample_info as nat, 8);
            let by = data_bytes(b);
            assert(bx.subrange(0, 2) =~= be_seq(x.min_block_size as nat, 2));
            assert(by.subrange(0, 2) =~= be_seq(y.min_block_size as nat, 2));
            assert(bx.subrange(2, 4) =~= be_seq(x.max_block_size as nat, 2));
            assert(by.subrange(2, 4) =~= be_seq(y.max_block_size as nat, 2));
            assert(bx.subrange(4, 7) =~= be_seq(x.min_frame_size as nat % 0x100_0000, 3));
            assert(by.subrange(4, 7) =~= be_seq(y.min_frame_size as nat % 0x100_0000, 3));
            assert(bx.subrange(7, 10) =~= be_seq(x.max_frame_size as nat % 0x100_0000, 3));
            assert(by.subrange(7, 10) =~= be_seq(y.max_frame_size as nat % 0x100_0000, 3));
            assert(bx.subrange(10, 18) =~= be_seq(x.sample_info as nat, 8));
            assert(by.subrange(10, 18) =~= be_seq(y.sample_info as nat, 8));
            assert(bx.subrange(18, 34) =~= x.md5_signature@);
            assert(by.subrange(18, 34) =~= y.md5_signature@);
            lemma_be_inj(x.min_block_size as nat, y.min_block_size as nat, 2);
            lemma_be_inj(x.max_block_size as nat, y.max_block_size as nat, 2);
            lemma_be_inj(x.min_frame_size as nat % 0x100_0000, y.min_frame_size as nat % 0x100_0000, 3);
            lemma_be_inj(x.max_frame_size as nat % 0x100_0000, y.max_frame_size as nat % 0x100_0000, 3);
            lemma_be_inj(x.sample_info as nat, y.sample_info as nat, 8);
        },
        (FlacMetadataBlockData::APPLICATION(x), FlacMetadataBlockData::APPLICATION(y)) => {
            let bx = data_bytes(a);
            lemma_be_seq_len(x.app_id as nat, 4);
            lemma_be_seq_len(y.app_id as nat, 4);
            assert(bx.subrange(0, 4) =~= be_seq(x.app_id as nat, 4));
            assert(data_bytes(b).subrange(0, 4) =~= be_seq(y.app_id as nat, 4));
            assert(bx.subrange(4, bx.len() as int) =~= x.data@);
            assert(data_bytes(b).subrange(4, bx.len() as int) =~= y.data@);
            lemma_be_inj(x.app_id as nat, y.app_id as nat, 4);
        },
        (FlacMetadataBlockData::SEEKTABLE(x), FlacMetadataBlockData::SEEKTABLE(y)) => {
            lemma_seek_points_inj(x.seek_points@, y.seek_points@);
        },
        (FlacMetadataBlockData::PADDING(x), FlacMetadataBlockData::PADDING(y)) => {
            assert(zeros(x.nb_bytes as nat).len() == x.nb_bytes);
        },
        _ => {},
    }
}

/// The (key, value) pairs a map writes, entry by entry.
pub open spec fn flatten(m: VorbisModel) -> Seq<(Seq<char>, Seq<char>)>
    decreases m.len(),
{
    if m.len() == 0 {
        Seq::empty()
    } else {
        flatten(m.drop_last()) + m.last().1.map_values(|v: Seq<char>| (m.last().0, v))
    }
}

/// Each entry holds distinct values.
pub open spec fn values_distinct(m: VorbisModel) -> bool {
    forall|i: int, a: int, c: int|
        0 <= i < m.len() && 0 <= a < c < m[i].1.len() ==> #[trigger] m[i].1[a] != #[trigger] m[i].1[c]
}

proof fn lemma_fold_add_concat(m: VorbisModel, p: Seq<(Seq<char>, Seq<char>)>, q: Seq<(Seq<char>, Seq<char>)>)
    ensures
        fold_add(m, p + q) == fold_add(fold_add(m, p), q),
    decreases q.len(),
{
    if q.len() == 0 {
        assert(p + q =~= p);
    } else {
        assert((p + q).drop_last() =~= p + q.drop_last());
        lemma_fold_add_concat(m, p, q.drop_last());
    }
}

/// Adding the values of a new key one after the other appends its entry.
proof fn lemma_add_values(m: VorbisModel, k: Seq<char>, vs: Seq<Seq<char>>, j: int)
    requires
        crate::vorbis::model_wf(m),
        upper(k) == k,
        forall|i: int| 0 <= i < m.len() ==> #[trigger] m[i].0 != k,
        1 <= j <= vs.len(),
        forall|a: int, c: int| 0 <= a < c < vs.len() ==> #[trigger] vs[a] != #[trigger] vs[c],
    ensures
        fold_add(m, vs.subrange(0, j).map_values(|v: Seq<char>| (k, v))) == m.push((k, vs.subrange(0, j))),
    decreases j,
{
    let ps = vs.subrange(0, j).map_values(|v: Seq<char>| (k, v));
    assert(ps.drop_last() =~= vs.subrange(0, j - 1).map_values(|v: Seq<char>| (k, v)));
    assert(ps.last() == (k, vs[j - 1]));
    assert(fold_add(m, ps) == add_spec(fold_add(m, ps.drop_last()), k, vs[j - 1]));
    if j == 1 {
        assert(vs.subrange(0, 0).map_values(|v: Seq<char>| (k, v)) =~= Seq::<(Seq<char>, Seq<char>)>::empty());
        assert(forall|i: int| 0 <= i < m.len() ==> !(#[trigger] m[i].0 == k));
        assert(crate::vorbis::find(m, k) == -1);
        assert(fold_add(m, ps.drop_last()) == m);
        assert(seq![vs[0]] =~= vs.subrange(0, 1));
        assert(add_spec(m, k, vs[0]) == m.push((k, seq![vs[0]])));
    } else {
        lemma_add_values(m, k, vs, j - 1);
        let prev = m.push((k, vs.subrange(0, j - 1)));
        assert(crate::vorbis::model_wf(prev)) by {
            assert forall|a: int, c: int| 0 <= a < c < prev.len() implies #[trigger] prev[a].0 != #[trigger] prev[c].0 by {
                if c == m.len() {
                    assert(m[a].0 != k);
                } else {
                    assert(m[a].0 != m[c].0);
                }
            }
        }
        crate::vorbis::lemma_find_unique(prev, k, m.len() as int);
        assert(!vs.subrange(0, j - 1).contains(vs[j - 1])) by {
            if vs.subrange(0, j - 1).contains(vs[j - 1]) {
                let t = choose|t: int| 0 <= t < j - 1 && #[trigger] vs.subrange(0, j - 1)[t] == vs[j - 1];
                assert(vs[t] != vs[j - 1]);
            }
        }
        assert(vs.subrange(0, j - 1).push(vs[j - 1]) =~= vs.subrange(0, j));
        assert(prev.update(m.len() as int, (k, vs.subrange(0, j))) =~= m.push((k, vs.subrange(0, j))));
    }
}

/// Adding, one after the other, the pairs that a well-formed map writes rebuilds that map:
/// what a Vorbis comment block writes reads back as the same multi-valued map.
pub proof fn lemma_vorbis_rebuild(m: VorbisModel)
    requires
        crate::vorbis::model_wf(m),
        values_distinct(m),
    ensures
        fold_add(Seq::empty(), flatten(m)) == m,
    decreases m.len(),
{
    if m.len() > 0 {
        let d = m.drop_last();
        assert(crate::vorbis::model_wf(d)) by {
            assert forall|a: int, c: int| 0 <= a < c < d.len() implies #[trigger] d[a].0 != #[trigger] d[c].0 by {
                assert(m[a].0 != m[c].0);
            }
        }
        assert(values_distinct(d)) by {
            assert forall|i: int, a: int, c: int|
                0 <= i < d.len() && 0 <= a < c < d[i].1.len() implies #[trigger] d[i].1[a] != #[trigger] d[i].1[c] by {
                assert(m[i].1[a] != m[i].1[c]);
            }
        }
        lemma_vorbis_rebuild(d);
        let (k, vs) = m.last();
        let last_i = m.len() - 1;
        lemma_fold_add_concat(Seq::empty(), flatten(d), vs.map_values(|v: Seq<char>| (k, v)));
        assert(vs.subrange(0, vs.len() as int) =~= vs);
        assert forall|i: int| 0 <= i < d.len() implies #[trigger] d[i].0 != k by {
            assert(m[i].0 != m[last_i].0);
        }
        assert forall|a: int, c: int| 0 <= a < c < vs.len() implies #[trigger] vs[a] != #[trigger] vs[c] by {
            assert(m[last_i].1[a] != m[last_i].1[c]);
        }
        assert(m[last_i].1.len() > 0);
        lemma_add_values(d, k, vs, vs.len() as int);
        assert(d.push((k, vs)) =~= m);
    }
}

/// A map writes one pair per value.
pub proof fn lemma_flatten_count(m: VorbisModel)
    ensures
        flatten(m).len() == pair_count(m),
        raw_pairs(flatten(m)) == comments_bytes(m),
    decreases m.len(),
{
    if m.len() > 0 {
        lemma_flatten_count(m.drop_last());
        lemma_values_pairs(m.last().0, m.last().1, flatten(m.drop_last()));
    }
}

proof fn lemma_values_pairs(k: Seq<char>, vs: Seq<Seq<char>>, pre: Seq<(Seq<char>, Seq<char>)>)
    ensures
        raw_pairs(pre + vs.map_values(|v: Seq<char>| (k, v))) == raw_pairs(pre) + values_bytes(k, vs),
    decreases vs.len(),
{
    let ps = pre + vs.map_values(|v: Seq<char>| (k, v));
    if vs.len() == 0 {
        assert(ps =~= pre);
    } else {
        lemma_values_pairs(k, vs.drop_last(), pre);
        assert(ps.drop_last() =~= pre + vs.drop_last().map_values(|v: Seq<char>| (k, v)));
    }
}

/// The registered identifiers of APPLICATION blocks.
#[derive(Copy, Clone, Debug, PartialEq, Eq, Structural)]
pub enum ApplicationID {
    /// "ATCH"
    ATCH,
    /// "BSOL"
    BSOL,
    /// "BUGS"
    BUGS,
    /// "Cues"
    Cues,
    /// "Fica"
    Fica,
    /// "Ftol"
    Ftol,
    /// "MOTB"
    MOTB,
    /// "MPSE"
    MPSE,
    /// "MuML"
    MuML,
    /// "RIFF"
    RIFF,
    /// "SFFL"
    SFFL,
    /// "SONY"
    SONY,
    /// "SQEZ"
    SQEZ,
    /// "TtWv"
    TtWv,
    /// "UITS"
    UITS,
    /// "aiff"
    Aiff,
    /// "imag"
    Imag,
    /// "peem"
    Peem,
    /// "qfst"
    Qfst,
    /// "riff"
    Riff,
    /// "tune"
    Tune,
    /// "xbat"
    Xbat,
    /// "xmcd"
    Xmcd,
}

impl ApplicationID {
    pub open spec fn code_spec(self) -> u32 {
        match self {
            ApplicationID::ATCH => 0x41544348,
            ApplicationID::BSOL => 0x42534f4c,
            ApplicationID::BUGS => 0x42554753,
            ApplicationID::Cues => 0x43756573,
            ApplicationID::Fica => 0x46696361,
            ApplicationID::Ftol => 0x46746f6c,
            ApplicationID::MOTB => 0x4d4f5442,
            ApplicationID::MPSE => 0x4d505345,
            ApplicationID::MuML => 0x4d754d4c,
            ApplicationID::RIFF => 0x52494646,
            ApplicationID::SFFL => 0x5346464c,
            ApplicationID::SONY => 0x534f4e59,
            ApplicationID::SQEZ => 0x5351455a,
            ApplicationID::TtWv => 0x54745776,
            ApplicationID::UITS => 0x55495453,
            ApplicationID::Aiff => 0x61696666,
            ApplicationID::Imag => 0x696d6167,
            ApplicationID::Peem => 0x7065656d,
            ApplicationID::Qfst => 0x71667374,
            ApplicationID::Riff => 0x72696666,
            ApplicationID::Tune => 0x74756e65,
            ApplicationID::Xbat => 0x78626174,
            ApplicationID::Xmcd => 0x786d6364,
        }
    }

    /// The four bytes of this identifier, as a big-endian `u32`.
    pub fn code(&self) -> (r: u32)
        ensures
            r == self.code_spec(),
    {
        match self {
            ApplicationID::ATCH => 0x41544348,
            ApplicationID::BSOL => 0x42534f4c,
            ApplicationID::BUGS => 0x42554753,
            ApplicationID::Cues => 0x43756573,
            ApplicationID::Fica => 0x46696361,
            ApplicationID::Ftol => 0x46746f6c,
            ApplicationID::MOTB => 0x4d4f5442,
            ApplicationID::MPSE => 0x4d505345,
            ApplicationID::MuML => 0x4d754d4c,
            ApplicationID::RIFF => 0x52494646,
            ApplicationID::SFFL => 0x5346464c,
            ApplicationID::SONY => 0x534f4e59,
            ApplicationID::SQEZ => 0x5351455a,
            ApplicationID::TtWv => 0x54745776,
            ApplicationID::UITS => 0x55495453,
            ApplicationID::Aiff => 0x61696666,
            ApplicationID::Imag => 0x696d6167,
            ApplicationID::Peem => 0x7065656d,
            ApplicationID::Qfst => 0x71667374,
            ApplicationID::Riff => 0x72696666,
            ApplicationID::Tune => 0x74756e65,
            ApplicationID::Xbat => 0x78626174,
            ApplicationID::Xmcd => 0x786d6364,
        }
    }

    /// The registered identifier with these four bytes, if there is one.
    pub fn from_code(c: u32) -> (r: Option<ApplicationID>)
        ensures
            r matches Some(a) ==> a.code_spec() == c,
            r is None ==> forall|a: ApplicationID| #[trigger] a.code_spec() != c,
    {
        if c == 0x41544348 {
            return Some(ApplicationID::ATCH);
        }
        if c == 0x42534f4c {
            return Some(ApplicationID::BSOL);
        }
        if c == 0x42554753 {
            return Some(ApplicationID::BUGS);
        }
        if c == 0x43756573 {
            return Some(ApplicationID::Cues);
        }
        if c == 0x46696361 {
            return Some(ApplicationID::Fica);
        }
        if c == 0x46746f6c {
            return Some(ApplicationID::Ftol);
        }
        if c == 0x4d4f5442 {
            return Some(ApplicationID::MOTB);
        }
        if c == 0x4d505345 {
            return Some(ApplicationID::MPSE);
        }
        if c == 0x4d754d4c {
            return Some(ApplicationID::MuML);
        }
        if c == 0x52494646 {
            return Some(ApplicationID::RIFF);
        }
        if c == 0x5346464c {
            return Some(ApplicationID::SFFL);
        }
        if c == 0x534f4e59 {
            return Some(ApplicationID::SONY);
        }
        if c == 0x5351455a {
            return Some(ApplicationID::SQEZ);
        }
        if c == 0x54745776 {
            return Some(ApplicationID::TtWv);
        }
        if c == 0x55495453 {
            return Some(ApplicationID::UITS);
        }
        if c == 0x61696666 {
            return Some(ApplicationID::Aiff);
        }
        if c == 0x696d6167 {
            return Some(ApplicationID::Imag);
        }
        if c == 0x7065656d {
            return Some(ApplicationID::Peem);
        }
        if c == 0x71667374 {
            return Some(ApplicationID::Qfst);
        }
        if c == 0x72696666 {
            return Some(ApplicationID::Riff);
        }
        if c == 0x74756e65 {
            return Some(ApplicationID::Tune);
        }
        if c == 0x78626174 {
            return Some(ApplicationID::Xbat);
        }
        if c == 0x786d6364 {
            return Some(ApplicationID::Xmcd);
        }
        proof {
            assert forall|a: ApplicationID| #[trigger] a.code_spec() != c by {
                match a {
                    ApplicationID::ATCH => {},
                    ApplicationID::BSOL => {},
                    ApplicationID::BUGS => {},
                    ApplicationID::Cues => {},
                    ApplicationID::Fica => {},
                    ApplicationID::Ftol => {},
                    ApplicationID::MOTB => {},
                    ApplicationID::MPSE => {},
                    ApplicationID::MuML => {},
                    ApplicationID::RIFF => {},
                    ApplicationID::SFFL => {},
                    ApplicationID::SONY => {},
                    ApplicationID::SQEZ => {},
                    ApplicationID::TtWv => {},
                    ApplicationID::UITS => {},
                    ApplicationID::Aiff => {},
                    ApplicationID::Imag => {},
                    ApplicationID::Peem => {},
                    ApplicationID::Qfst => {},
                    ApplicationID::Riff => {},
                    ApplicationID::Tune => {},
                    ApplicationID::Xbat => {},
                    ApplicationID::Xmcd => {},
                }
            }
        }
        None
    }
}

impl ApplicationBlock {
    /// The registered identifier of this block, if its identifier is a registered one.
    pub fn application_id(&self) -> (r: Option<ApplicationID>)
        ensures
            r matches Some(a) ==> a.code_spec() == self.app_id,
            r is None ==> forall|a: ApplicationID| #[trigger] a.code_spec() != self.app_id,
    {
        ApplicationID::from_code(self.app_id)
    }
}

/// `p` is one of the (key, value) pairs of `m`.
pub open spec fn pair_of(m: VorbisModel, p: (Seq<char>, Seq<char>)) -> bool {
    exists|e: int, j: int| 0 <= e < m.len() && 0 <= j < m[e].1.len() && p == (m[e].0, #[trigger] m[e].1[j])
}

/// Every pair a map writes is one of its (key, value) pairs.
proof fn lemma_flatten_elems(m: VorbisModel)
    ensures
        forall|i: int| 0 <= i < flatten(m).len() ==> #[trigger] pair_of(m, flatten(m)[i]),
    decreases m.len(),
{
    if m.len() > 0 {
        let d = m.drop_last();
        lemma_flatten_elems(d);
        let last = m.last();
        let tail = last.1.map_values(|v: Seq<char>| (last.0, v));
        assert forall|i: int| 0 <= i < flatten(m).len() implies #[trigger] pair_of(m, flatten(m)[i]) by {
            if i < flatten(d).len() {
                assert(flatten(m)[i] == flatten(d)[i]);
                assert(pair_of(d, flatten(d)[i]));
                let (e, j) = choose|e: int, j: int|
                    0 <= e < d.len() && 0 <= j < d[e].1.len() && flatten(d)[i] == (d[e].0, #[trigger] d[e].1[j]);
                assert(m[e] == d[e]);
                assert(flatten(m)[i] == (m[e].0, m[e].1[j]));
            } else {
                let j = i - flatten(d).len();
                assert(flatten(m)[i] == tail[j]);
                let e = m.len() - 1;
                assert(m[e] == last);
                assert(flatten(m)[i] == (m[e].0, m[e].1[j]));
            }
        }
    } else {
        assert(flatten(m).len() == 0);
    }
}

/// What a well-formed Vorbis payload writes is a layout of raw pairs that reads back.
pub proof fn lemma_vorbis_payload_layout(vd: Seq<char>, m: VorbisModel)
    requires
        vorbis_ok(vd, m),
        forall|i: int| 0 <= i < m.len() ==> !encode_utf8(#[trigger] m[i].0).contains(0x3du8),
    ensures
        vorbis_payload(vd, m) == vorbis_layout(vd, flatten(m)),
        layout_ok(vd, flatten(m)),
{
    lemma_flatten_count(m);
    lemma_flatten_elems(m);
    let f = flatten(m);
    assert forall|i: int| 0 <= i < f.len() implies !encode_utf8(#[trigger] f[i].0).contains(0x3du8) by {
        assert(pair_of(m, f[i]));
        let (e, j) = choose|e: int, j: int| 0 <= e < m.len() && 0 <= j < m[e].1.len() && f[i] == (m[e].0, #[trigger] m[e].1[j]);
        assert(!encode_utf8(m[e].0).contains(0x3du8));
    }
    assert forall|i: int| 0 <= i < f.len() implies #[trigger] pair_bytes(f[i].0, f[i].1).len() < 0x1_0000_0000 by {
        assert(pair_of(m, f[i]));
        let (e, j) = choose|e: int, j: int| 0 <= e < m.len() && 0 <= j < m[e].1.len() && f[i] == (m[e].0, #[trigger] m[e].1[j]);
        assert(pair_bytes(m[e].0, m[e].1[j]).len() < 0x1_0000_0000);
    }
}

/// A payload that reads back as itself: for Vorbis comments, no key holds "=" and no key
/// repeats a value.
pub open spec fn data_readable(d: FlacMetadataBlockData) -> bool {
    match d {
        FlacMetadataBlockData::VORBISCOMMENT(v) => values_distinct(v.comments@) && forall|i: int|
            0 <= i < v.comments@.len() ==> !encode_utf8(#[trigger] v.comments@[i].0).contains(0x3du8),
        _ => true,
    }
}

proof fn lemma_same_tracks_bytes(ts: Seq<CueSheetTrack>, us: Seq<CueSheetTrack>)
    requires
        ts.len() == us.len(),
        forall|i: int| 0 <= i < ts.len() ==> same_track(#[trigger] ts[i], us[i]),
    ensures
        tracks_bytes(ts) == tracks_bytes(us),
    decreases ts.len(),
{
    if ts.len() > 0 {
        lemma_same_tracks_bytes(ts.drop_last(), us.drop_last());
        assert(same_track(ts[ts.len() - 1], us[us.len() - 1]));
        assert(track_flags(ts.last()) == track_flags(us.last()));
        assert(track_bytes(ts.last()) == track_bytes(us.last()));
    }
}

/// Payloads with the same content have the same bytes.
pub proof fn lemma_same_data_bytes(a: FlacMetadataBlockData, c: FlacMetadataBlockData)
    requires
        same_data(a, c),
    ensures
        data_bytes(a) == data_bytes(c),
        a.block_type_spec() == c.block_type_spec(),
{
    match (a, c) {
        (FlacMetadataBlockData::CUESHEET(x), FlacMetadataBlockData::CUESHEET(y)) => {
            lemma_same_tracks_bytes(x.cuesheets_tracks@, y.cuesheets_tracks@);
        },
        (FlacMetadataBlockData::SEEKTABLE(x), FlacMetadataBlockData::SEEKTABLE(y)) => {},
        _ => {},
    }
}

} // verus!
