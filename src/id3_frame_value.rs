//! Payloads of ID3v2.3 frames: one variant per frame kind, with its byte layout.
use vstd::prelude::*;
use vstd::utf8::*;
use crate::bytes::{be_seq, be_val, read_be, write_be, lemma_be_seq_len, lemma_be_val_seq, lemma_be_seq_val, lemma_be_val_bound, pow256};
use crate::text::{TextEncoding, field_bytes, field_ok, text_bytes, terminator, field_len, field_at, encode_text, decode_text, decode_field, append_slice};
use crate::id3_frameid::{is_text_id, is_url_id, is_binary_id, is_text_frame_id, is_url_frame_id, APIC, AENC, COMM, COMR, ENCR, EQUA, GRID, LINK, MCDI, MLLT, OWNE, PCNT, POPM, POSS, RVAD, RVRB, SYLT, ETCO, GEOB, IPLS, PRIV, RBUF, SYTC, TCMP, TXXX, UFID, USER, USLT};

verus! {

/// What a picture shows.
#[derive(Copy, Clone, Debug, PartialEq, Eq, Structural)]
pub enum PictureType {
    Other,
    FileIcon,
    OtherFileIcon,
    CoverFront,
    CoverBlack,
    LeafletPage,
    Media,
    LeadArtist,
    Artist,
    Conductor,
    Band,
    Composer,
    Lyricist,
    RecordingLocation,
    DuringRecording,
    DuringPerformance,
    MovieScrenCapture,
    BrightColouredFish,
    Illustration,
    ArtistLogotype,
    PublisherLogotype,
}

impl PictureType {
    pub open spec fn raw(self) -> u8 {
        match self {
            PictureType::Other => 0,
            PictureType::FileIcon => 1,
            PictureType::OtherFileIcon => 2,
            PictureType::CoverFront => 3,
            PictureType::CoverBlack => 4,
            PictureType::LeafletPage => 5,
            PictureType::Media => 6,
            PictureType::LeadArtist => 7,
            PictureType::Artist => 8,
            PictureType::Conductor => 9,
            PictureType::Band => 10,
            PictureType::Composer => 11,
            PictureType::Lyricist => 12,
            PictureType::RecordingLocation => 13,
            PictureType::DuringRecording => 14,
            PictureType::DuringPerformance => 15,
            PictureType::MovieScrenCapture => 16,
            PictureType::BrightColouredFish => 17,
            PictureType::Illustration => 18,
            PictureType::ArtistLogotype => 19,
            PictureType::PublisherLogotype => 20,
        }
    }

    /// The picture type that the byte `value` stands for.
    pub fn from_raw_value(value: u8) -> (r: Option<PictureType>)
        ensures
            value <= 20 ==> (r matches Some(t) && t.raw() == value),
            value > 20 ==> r is None,
    {
        match value {
            0 => Some(PictureType::Other),
            1 => Some(PictureType::FileIcon),
            2 => Some(PictureType::OtherFileIcon),
            3 => Some(PictureType::CoverFront),
            4 => Some(PictureType::CoverBlack),
            5 => Some(PictureType::LeafletPage),
            6 => Some(PictureType::Media),
            7 => Some(PictureType::LeadArtist),
            8 => Some(PictureType::Artist),
            9 => Some(PictureType::Conductor),
            10 => Some(PictureType::Band),
            11 => Some(PictureType::Composer),
            12 => Some(PictureType::Lyricist),
            13 => Some(PictureType::RecordingLocation),
            14 => Some(PictureType::DuringRecording),
            15 => Some(PictureType::DuringPerformance),
            16 => Some(PictureType::MovieScrenCapture),
            17 => Some(PictureType::BrightColouredFish),
            18 => Some(PictureType::Illustration),
            19 => Some(PictureType::ArtistLogotype),
            20 => Some(PictureType::PublisherLogotype),
            _ => None,
        }
    }

    /// The byte written for this picture type.
    pub fn raw_value(&self) -> (r: u8)
        ensures
            r == self.raw(),
    {
        match self {
            PictureType::Other => 0,
            PictureType::FileIcon => 1,
            PictureType::OtherFileIcon => 2,
            PictureType::CoverFront => 3,
            PictureType::CoverBlack => 4,
            PictureType::LeafletPage => 5,
            PictureType::Media => 6,
            PictureType::LeadArtist => 7,
            PictureType::Artist => 8,
            PictureType::Conductor => 9,
            PictureType::Band => 10,
            PictureType::Composer => 11,
            PictureType::Lyricist => 12,
            PictureType::RecordingLocation => 13,
            PictureType::DuringRecording => 14,
            PictureType::DuringPerformance => 15,
            PictureType::MovieScrenCapture => 16,
            PictureType::BrightColouredFish => 17,
            PictureType::Illustration => 18,
            PictureType::ArtistLogotype => 19,
            PictureType::PublisherLogotype => 20,
        }
    }
}

/// The mathematical content of a frame payload.
pub enum FrameView {
    UniqueFileId(Seq<char>, Seq<u8>),
    Text(TextEncoding, Seq<char>),
    UserText(TextEncoding, Seq<char>, Seq<char>),
    Url(Seq<char>),
    InvolvedPeople(TextEncoding, Seq<char>),
    EventTiming(u8, Seq<u8>),
    SyncTempo(u8, Seq<u8>),
    UnsyncLyrics(TextEncoding, Seq<char>, Seq<char>, Seq<char>),
    Comment(TextEncoding, Seq<char>, Seq<char>, Seq<char>),
    AttachedPicture(TextEncoding, Seq<char>, u8, Seq<char>, Seq<u8>),
    EncapsulatedObject(TextEncoding, Seq<char>, Seq<char>, Seq<char>, Seq<u8>),
    RecommendedBufferSize(u32, bool, u32),
    AudioEncryption(Seq<char>, u16, u16, Seq<u8>),
    TermsOfUse(TextEncoding, Seq<char>, Seq<char>),
    Private(Seq<char>, Seq<u8>),
    Compilation(bool),
    /// Opaque bytes, tagged with the frame identifier they belong to (0 for an unknown one).
    Binary(u32, Seq<u8>),
    NoValue,
}

pub open spec fn lang_ok(lang: Seq<char>) -> bool {
    encode_utf8(lang).len() == 3
}

/// The payload bytes of a frame.
pub open spec fn encode_view(v: FrameView) -> Seq<u8> {
    match v {
        FrameView::UniqueFileId(owner, id) => field_bytes(TextEncoding::Iso8859_1, owner, true) + id,
        FrameView::Text(e, s) => seq![e.raw()] + text_bytes(e, s),
        FrameView::UserText(e, d, s) => seq![e.raw()] + field_bytes(e, d, true) + text_bytes(e, s),
        FrameView::Url(u) => encode_utf8(u),
        FrameView::InvolvedPeople(e, s) => seq![e.raw()] + text_bytes(e, s),
        FrameView::EventTiming(f, raw) => seq![f] + raw,
        FrameView::SyncTempo(f, raw) => seq![f] + raw,
        FrameView::UnsyncLyrics(e, lang, d, s) => seq![e.raw()] + encode_utf8(lang) + field_bytes(
            e,
            d,
            true,
        ) + text_bytes(e, s),
        FrameView::Comment(e, lang, d, s) => seq![e.raw()] + encode_utf8(lang) + field_bytes(e, d, true)
            + text_bytes(e, s),
        FrameView::AttachedPicture(e, mime, t, d, data) => seq![e.raw()] + field_bytes(
            TextEncoding::Iso8859_1,
            mime,
            true,
        ) + seq![t] + field_bytes(e, d, true) + data,
        FrameView::EncapsulatedObject(e, mime, f, d, obj) => seq![e.raw()] + field_bytes(
            TextEncoding::Iso8859_1,
            mime,
            true,
        ) + field_bytes(e, f, true) + field_bytes(e, d, true) + obj,
        FrameView::RecommendedBufferSize(n, flag, off) => be_seq(n as nat, 4) + seq![
            if flag {
                1u8
            } else {
                0u8
            },
        ] + be_seq(off as nat, 4),
        FrameView::AudioEncryption(owner, s, l, info) => field_bytes(
            TextEncoding::Iso8859_1,
            owner,
            true,
        ) + be_seq(s as nat, 2) + be_seq(l as nat, 2) + info,
        FrameView::TermsOfUse(e, lang, s) => seq![e.raw()] + encode_utf8(lang) + text_bytes(e, s),
        FrameView::Private(owner, data) => field_bytes(TextEncoding::Iso8859_1, owner, true) + data,
        FrameView::Compilation(c) => seq![
            0u8,
            if c {
                0x31u8
            } else {
                0x30u8
            },
        ],
        FrameView::Binary(_, raw) => raw,
        FrameView::NoValue => Seq::empty(),
    }
}

/// The constraints under which a payload reads back as itself: terminated strings hold no
/// terminator, languages take three bytes, timestamp formats and picture types are known.
pub open spec fn wf_view(v: FrameView) -> bool {
    match v {
        FrameView::UniqueFileId(owner, _) => field_ok(TextEncoding::Iso8859_1, owner),
        FrameView::UserText(e, d, _) => field_ok(e, d),
        FrameView::EventTiming(f, _) => f == 1 || f == 2,
        FrameView::SyncTempo(f, _) => f == 1 || f == 2,
        FrameView::UnsyncLyrics(e, lang, d, _) => lang_ok(lang) && field_ok(e, d),
        FrameView::Comment(e, lang, d, _) => lang_ok(lang) && field_ok(e, d),
        FrameView::AttachedPicture(e, mime, t, d, _) => field_ok(TextEncoding::Iso8859_1, mime) && t
            <= 20 && field_ok(e, d),
        FrameView::EncapsulatedObject(e, mime, f, d, _) => field_ok(TextEncoding::Iso8859_1, mime)
            && field_ok(e, f) && field_ok(e, d),
        FrameView::AudioEncryption(owner, _, _, _) => field_ok(TextEncoding::Iso8859_1, owner),
        FrameView::TermsOfUse(_, lang, _) => lang_ok(lang),
        FrameView::Private(owner, _) => field_ok(TextEncoding::Iso8859_1, owner),
        _ => true,
    }
}

/// Frame identifiers with a layout of their own, other than text and URL frames.
pub open spec fn is_structured_id(id: u32) -> bool {
    id == TXXX || id == IPLS || id == ETCO || id == SYTC || id == USLT || id == COMM || id == APIC
        || id == GEOB || id == RBUF || id == AENC || id == USER || id == PRIV || id == UFID || id
        == TCMP
}

/// The tag that marks opaque payloads of frame `id`: the identifier of a known opaque kind,
/// or 0 for an unknown identifier.
pub open spec fn binary_tag(id: u32) -> u32 {
    if is_binary_id(id) {
        id
    } else {
        0
    }
}

/// Whether `v` is the kind of payload that frame `id` carries.
pub open spec fn fits(id: u32, v: FrameView) -> bool {
    match v {
        FrameView::UniqueFileId(..) => id == UFID,
        FrameView::Text(..) => is_text_id(id),
        FrameView::UserText(..) => id == TXXX,
        FrameView::Url(..) => is_url_id(id),
        FrameView::InvolvedPeople(..) => id == IPLS,
        FrameView::EventTiming(..) => id == ETCO,
        FrameView::SyncTempo(..) => id == SYTC,
        FrameView::UnsyncLyrics(..) => id == USLT,
        FrameView::Comment(..) => id == COMM,
        FrameView::AttachedPicture(..) => id == APIC,
        FrameView::EncapsulatedObject(..) => id == GEOB,
        FrameView::RecommendedBufferSize(..) => id == RBUF,
        FrameView::AudioEncryption(..) => id == AENC,
        FrameView::TermsOfUse(..) => id == USER,
        FrameView::Private(..) => id == PRIV,
        FrameView::Compilation(..) => id == TCMP,
        FrameView::Binary(k, _) => !is_text_id(id) && !is_url_id(id) && !is_structured_id(id) && k
            == binary_tag(id),
        FrameView::NoValue => false,
    }
}

/// Unique file identifier: an owner and up to 64 bytes of identifier.
pub struct UniqueFileIdentifierFrame {
    pub owner_id: String,
    pub id: Vec<u8>,
}

/// A text-information frame.
pub struct TextFrame {
    pub text_encoding: TextEncoding,
    pub text: String,
}

/// A user-defined text frame: a description and a value.
pub struct UserInfoFrame {
    pub text_encoding: TextEncoding,
    pub description: String,
    pub text: String,
}

/// A URL-link frame.
pub struct UrlFrame {
    pub url: String,
}

/// The involved-people list.
pub struct InvolvedPeopleFrame {
    pub text_encoding: TextEncoding,
    pub people_list: String,
}

/// A frame of timed data: a timestamp format (1: MPEG frames, 2: milliseconds) and its data.
pub struct TimedFrame {
    pub time_stamp_format: u8,
    pub data: Vec<u8>,
}

/// Lyrics or a comment: a language, a description and the text.
pub struct CommentFrame {
    pub text_encoding: TextEncoding,
    pub language: String,
    pub content_description: String,
    pub text: String,
}

/// An attached picture.
pub struct AttachedPictureFrame {
    pub text_encoding: TextEncoding,
    pub mime_type: String,
    pub picture_type: PictureType,
    pub description: String,
    pub picture_data: Vec<u8>,
}

/// A general encapsulated object.
pub struct GeneralEncapsulatedObjectFrame {
    pub text_encoding: TextEncoding,
    pub mime_type: String,
    pub filename: String,
    pub description: String,
    pub encapsulated_object: Vec<u8>,
}

/// The recommended buffer size.
pub struct RecommendedBufferSizeFrame {
    pub buffer_size: u32,
    pub embedded_info_flag: bool,
    pub offset_next_tag: u32,
}

/// Audio encryption: an owner, a preview range and encryption data.
pub struct AudioEncryptionFrame {
    pub owner_id: String,
    pub preview_start: u16,
    pub preview_length: u16,
    pub encryption_info: Vec<u8>,
}

/// Terms of use.
pub struct TermsUseFrame {
    pub text_encoding: TextEncoding,
    pub language: String,
    pub text: String,
}

/// Private data: an owner and opaque bytes.
pub struct PrivateFrame {
    pub owner_id: String,
    pub private_data: Vec<u8>,
}

/// The payload of a frame.
pub enum FrameValue {
    UniqueFileId(UniqueFileIdentifierFrame),
    Text(TextFrame),
    UserText(UserInfoFrame),
    Url(UrlFrame),
    InvolvedPeople(InvolvedPeopleFrame),
    MusicCdId(Vec<u8>),
    EventTiming(TimedFrame),
    LocationLookupTable(Vec<u8>),
    SyncTempo(TimedFrame),
    UnsyncLyrics(CommentFrame),
    SyncLyrics(Vec<u8>),
    Comment(CommentFrame),
    RelativeVolume(Vec<u8>),
    Equalisation(Vec<u8>),
    Reverb(Vec<u8>),
    AttachedPicture(AttachedPictureFrame),
    EncapsulatedObject(GeneralEncapsulatedObjectFrame),
    PlayCounter(Vec<u8>),
    Popularimeter(Vec<u8>),
    RecommendedBufferSize(RecommendedBufferSizeFrame),
    AudioEncryption(AudioEncryptionFrame),
    LinkedInfo(Vec<u8>),
    PositionSync(Vec<u8>),
    TermsOfUse(TermsUseFrame),
    Ownership(Vec<u8>),
    Commercial(Vec<u8>),
    EncryptionMethodRegistration(Vec<u8>),
    GroupIdRegistration(Vec<u8>),
    Private(PrivateFrame),
    /// The payload of a frame whose identifier is not known, kept verbatim.
    Undefined(Vec<u8>),
    Compilation(bool),
    NoValue,
}

impl View for FrameValue {
    type V = FrameView;

    open spec fn view(&self) -> FrameView {
        match self {
            FrameValue::UniqueFileId(f) => FrameView::UniqueFileId(f.owner_id@, f.id@),
            FrameValue::Text(f) => FrameView::Text(f.text_encoding, f.text@),
            FrameValue::UserText(f) => FrameView::UserText(f.text_encoding, f.description@, f.text@),
            FrameValue::Url(f) => FrameView::Url(f.url@),
            FrameValue::InvolvedPeople(f) => FrameView::InvolvedPeople(f.text_encoding, f.people_list@),
            FrameValue::MusicCdId(d) => FrameView::Binary(MCDI, d@),
            FrameValue::EventTiming(f) => FrameView::EventTiming(f.time_stamp_format, f.data@),
            FrameValue::LocationLookupTable(d) => FrameView::Binary(MLLT, d@),
            FrameValue::SyncTempo(f) => FrameView::SyncTempo(f.time_stamp_format, f.data@),
            FrameValue::UnsyncLyrics(f) => FrameView::UnsyncLyrics(
                f.text_encoding,
                f.language@,
                f.content_description@,
                f.text@,
            ),
            FrameValue::SyncLyrics(d) => FrameView::Binary(SYLT, d@),
            FrameValue::Comment(f) => FrameView::Comment(
                f.text_encoding,
                f.language@,
                f.content_description@,
                f.text@,
            ),
            FrameValue::RelativeVolume(d) => FrameView::Binary(RVAD, d@),
            FrameValue::Equalisation(d) => FrameView::Binary(EQUA, d@),
            FrameValue::Reverb(d) => FrameView::Binary(RVRB, d@),
            FrameValue::AttachedPicture(f) => FrameView::AttachedPicture(
                f.text_encoding,
                f.mime_type@,
                f.picture_type.raw(),
                f.description@,
                f.picture_data@,
            ),
            FrameValue::EncapsulatedObject(f) => FrameView::EncapsulatedObject(
                f.text_encoding,
                f.mime_type@,
                f.filename@,
                f.description@,
                f.encapsulated_object@,
            ),
            FrameValue::PlayCounter(d) => FrameView::Binary(PCNT, d@),
            FrameValue::Popularimeter(d) => FrameView::Binary(POPM, d@),
            FrameValue::RecommendedBufferSize(f) => FrameView::RecommendedBufferSize(
                f.buffer_size,
                f.embedded_info_flag,
                f.offset_next_tag,
            ),
            FrameValue::AudioEncryption(f) => FrameView::AudioEncryption(
                f.owner_id@,
                f.preview_start,
                f.preview_length,
                f.encryption_info@,
            ),
            FrameValue::LinkedInfo(d) => FrameView::Binary(LINK, d@),
            FrameValue::PositionSync(d) => FrameView::Binary(POSS, d@),
            FrameValue::TermsOfUse(f) => FrameView::TermsOfUse(f.text_encoding, f.language@, f.text@),
            FrameValue::Ownership(d) => FrameView::Binary(OWNE, d@),
            FrameValue::Commercial(d) => FrameView::Binary(COMR, d@),
            FrameValue::EncryptionMethodRegistration(d) => FrameView::Binary(ENCR, d@),
            FrameValue::GroupIdRegistration(d) => FrameView::Binary(GRID, d@),
            FrameValue::Private(f) => FrameView::Private(f.owner_id@, f.private_data@),
            FrameValue::Undefined(d) => FrameView::Binary(0, d@),
            FrameValue::Compilation(c) => FrameView::Compilation(*c),
            FrameValue::NoValue => FrameView::NoValue,
        }
    }
}

impl FrameValue {
    /// The payload bytes of this frame value.
    pub fn raw_bytes(&self) -> (r: Vec<u8>)
        ensures
            r@ == encode_view(self@),
    {
        let mut out: Vec<u8> = Vec::new();
        let latin = TextEncoding::Iso8859_1;
        match self {
            FrameValue::UniqueFileId(f) => {
                encode_text(&mut out, f.owner_id.as_str(), latin, true);
                append_slice(&mut out, f.id.as_slice());
            },
            FrameValue::Text(f) => {
                out.push(f.text_encoding.raw_value());
                encode_text(&mut out, f.text.as_str(), f.text_encoding, false);
            },
            FrameValue::UserText(f) => {
                out.push(f.text_encoding.raw_value());
                encode_text(&mut out, f.description.as_str(), f.text_encoding, true);
                encode_text(&mut out, f.text.as_str(), f.text_encoding, false);
            },
            FrameValue::Url(f) => {
                append_slice(&mut out, f.url.as_str().as_bytes());
            },
            FrameValue::InvolvedPeople(f) => {
                out.push(f.text_encoding.raw_value());
                encode_text(&mut out, f.people_list.as_str(), f.text_encoding, false);
            },
            FrameValue::EventTiming(f) | FrameValue::SyncTempo(f) => {
                out.push(f.time_stamp_format);
                append_slice(&mut out, f.data.as_slice());
            },
            FrameValue::UnsyncLyrics(f) | FrameValue::Comment(f) => {
                out.push(f.text_encoding.raw_value());
                append_slice(&mut out, f.language.as_str().as_bytes());
                encode_text(&mut out, f.content_description.as_str(), f.text_encoding, true);
                encode_text(&mut out, f.text.as_str(), f.text_encoding, false);
            },
            FrameValue::AttachedPicture(f) => {
                out.push(f.text_encoding.raw_value());
                encode_text(&mut out, f.mime_type.as_str(), latin, true);
                out.push(f.picture_type.raw_value());
                encode_text(&mut out, f.description.as_str(), f.text_encoding, true);
                append_slice(&mut out, f.picture_data.as_slice());
            },
            FrameValue::EncapsulatedObject(f) => {
                out.push(f.text_encoding.raw_value());
                encode_text(&mut out, f.mime_type.as_str(), latin, true);
                encode_text(&mut out, f.filename.as_str(), f.text_encoding, true);
                encode_text(&mut out, f.description.as_str(), f.text_encoding, true);
                append_slice(&mut out, f.encapsulated_object.as_slice());
            },
            FrameValue::RecommendedBufferSize(f) => {
                write_be(&mut out, f.buffer_size as u64, 4);
                out.push(if f.embedded_info_flag { 1 } else { 0 });
                write_be(&mut out, f.offset_next_tag as u64, 4);
            },
            FrameValue::AudioEncryption(f) => {
                encode_text(&mut out, f.owner_id.as_str(), latin, true);
                write_be(&mut out, f.preview_start as u64, 2);
                write_be(&mut out, f.preview_length as u64, 2);
                append_slice(&mut out, f.encryption_info.as_slice());
            },
            FrameValue::TermsOfUse(f) => {
                out.push(f.text_encoding.raw_value());
                append_slice(&mut out, f.language.as_str().as_bytes());
                encode_text(&mut out, f.text.as_str(), f.text_encoding, false);
            },
            FrameValue::Private(f) => {
                encode_text(&mut out, f.owner_id.as_str(), latin, true);
                append_slice(&mut out, f.private_data.as_slice());
            },
            FrameValue::Compilation(c) => {
                out.push(0);
                out.push(if *c { 0x31 } else { 0x30 });
            },
            FrameValue::MusicCdId(d) | FrameValue::LocationLookupTable(d) | FrameValue::SyncLyrics(d)
            | FrameValue::RelativeVolume(d) | FrameValue::Equalisation(d) | FrameValue::Reverb(d)
            | FrameValue::PlayCounter(d) | FrameValue::Popularimeter(d) | FrameValue::LinkedInfo(d)
            | FrameValue::PositionSync(d) | FrameValue::Ownership(d) | FrameValue::Commercial(d)
            | FrameValue::EncryptionMethodRegistration(d) | FrameValue::GroupIdRegistration(d)
            | FrameValue::Undefined(d) => {
                append_slice(&mut out, d.as_slice());
            },
            FrameValue::NoValue => {},
        }
        proof {
            assert(out@ =~= encode_view(self@));
        }
        out
    }

    /// The length of the payload: always that of the bytes `raw_bytes` writes.
    pub fn raw_size(&self) -> (r: usize)
        ensures
            r == encode_view(self@).len(),
    {
        self.raw_bytes().len()
    }
}

/// Copies `b[start..end]`.
pub fn copy_bytes(b: &[u8], start: usize, end: usize) -> (r: Vec<u8>)
    requires
        start <= end <= b@.len(),
    ensures
        r@ == b@.subrange(start as int, end as int),
{
    let mut v: Vec<u8> = Vec::new();
    let mut i: usize = start;
    while i < end
        invariant
            start <= i <= end <= b@.len(),
            v@ == b@.subrange(start as int, i as int),
        decreases end - i,
    {
        v.push(b[i]);
        i = i + 1;
        assert(v@ =~= b@.subrange(start as int, i as int));
    }
    v
}

/// Reads an encoding marker at `pos`.
pub fn read_encoding(b: &[u8], pos: usize, end: usize) -> (r: Option<TextEncoding>)
    requires
        end <= b@.len(),
    ensures
        r matches Some(e) ==> pos < end && b@[pos as int] == e.raw(),
        pos < end && b@[pos as int] <= 3 ==> r is Some,
{
    if pos >= end {
        return None;
    }
    TextEncoding::from_raw_value(b[pos])
}

proof fn lemma_split_first(sub: Seq<u8>, x: u8, rest: Seq<u8>)
    requires
        sub == seq![x] + rest,
    ensures
        sub.len() == rest.len() + 1,
        sub[0] == x,
        sub.subrange(1, sub.len() as int) == rest,
{
    assert(sub.subrange(1, sub.len() as int) =~= rest);
}

pub proof fn lemma_raw_inj(e1: TextEncoding, e2: TextEncoding)
    requires
        e1.raw() == e2.raw(),
    ensures
        e1 == e2,
{
}

/// Decodes an encoding marker followed by text up to `end`.
fn decode_enc_text(b: &[u8], start: usize, end: usize) -> (r: Option<(TextEncoding, String)>)
    requires
        start <= end <= b@.len(),
    ensures
        r matches Some((e, s)) ==> seq![e.raw()] + text_bytes(e, s@) == b@.subrange(
            start as int,
            end as int,
        ),
        forall|e2: TextEncoding, t: Seq<char>|
            seq![e2.raw()] + #[trigger] text_bytes(e2, t) == b@.subrange(start as int, end as int)
                ==> (r matches Some((e, s)) && e == e2 && s@ == t),
{
    let ghost sub = b@.subrange(start as int, end as int);
    let e = match read_encoding(b, start, end) {
        Some(e) => e,
        None => {
            proof {
                assert forall|e2: TextEncoding, t: Seq<char>|
                    seq![e2.raw()] + #[trigger] text_bytes(e2, t) == sub implies false by {
                    assert(sub[0] == e2.raw());
                }
            }
            return None;
        },
    };
    let s = decode_text(b, start + 1, end, e);
    proof {
        assert forall|e2: TextEncoding, t: Seq<char>|
            seq![e2.raw()] + #[trigger] text_bytes(e2, t) == sub implies (s matches Some(x) && e
                == e2 && x@ == t) by {
            assert(sub[0] == e2.raw());
            lemma_raw_inj(e, e2);
            assert(b@.subrange(start + 1, end as int) =~= sub.subrange(1, sub.len() as int));
            assert(sub.subrange(1, sub.len() as int) =~= text_bytes(e2, t));
        }
        if s is Some {
            assert(sub =~= seq![e.raw()] + b@.subrange(start + 1, end as int));
        }
    }
    match s {
        Some(s) => Some((e, s)),
        None => None,
    }
}

/// Decodes a Latin-1 terminated owner followed by opaque bytes up to `end`.
fn decode_owner_data(b: &[u8], start: usize, end: usize) -> (r: Option<(String, Vec<u8>)>)
    requires
        start <= end <= b@.len(),
    ensures
        r matches Some((o, d)) ==> field_ok(TextEncoding::Iso8859_1, o@) && field_bytes(
            TextEncoding::Iso8859_1,
            o@,
            true,
        ) + d@ == b@.subrange(start as int, end as int),
        forall|t: Seq<char>, d2: Seq<u8>|
            field_ok(TextEncoding::Iso8859_1, t) && #[trigger] (field_bytes(
                TextEncoding::Iso8859_1,
                t,
                true,
            ) + d2) == b@.subrange(start as int, end as int) ==> (r matches Some((o, d)) && o@ == t
                && d@ == d2),
{
    let ghost sub = b@.subrange(start as int, end as int);
    let latin = TextEncoding::Iso8859_1;
    let r = decode_field(b, start, end, latin);
    proof {
        assert forall|t: Seq<char>, d2: Seq<u8>|
            field_ok(latin, t) && #[trigger] (field_bytes(latin, t, true) + d2) == sub implies field_at(
                latin,
                t,
                b@,
                start as int,
                end as int,
            ) by {
            assert(b@.subrange(start as int, start + field_len(latin, t)) =~= sub.subrange(
                0,
                field_len(latin, t),
            ));
            assert(sub.subrange(0, field_len(latin, t)) =~= text_bytes(latin, t) + terminator(latin));
        }
    }
    match r {
        Some((o, p)) => {
            let d = copy_bytes(b, p, end);
            proof {
                assert(sub =~= b@.subrange(start as int, p as int) + d@);
                assert forall|t: Seq<char>, d2: Seq<u8>|
                    field_ok(latin, t) && #[trigger] (field_bytes(latin, t, true) + d2) == sub implies o@
                    == t && d@ == d2 by {
                    assert(d@ =~= sub.subrange(field_len(latin, t), sub.len() as int));
                    assert(d2 =~= sub.subrange(field_len(latin, t), sub.len() as int));
                }
            }
            Some((o, d))
        },
        None => None,
    }
}

/// Decodes a terminated description followed by text up to `end`, both in encoding `e`.
fn decode_desc_text(b: &[u8], start: usize, end: usize, e: TextEncoding) -> (r: Option<(String, String)>)
    requires
        start <= end <= b@.len(),
    ensures
        r matches Some((d, s)) ==> field_ok(e, d@) && field_bytes(e, d@, true) + text_bytes(e, s@)
            == b@.subrange(start as int, end as int),
        forall|d2: Seq<char>, t: Seq<char>|
            field_ok(e, d2) && #[trigger] (field_bytes(e, d2, true) + text_bytes(e, t)) == b@.subrange(
                start as int,
                end as int,
            ) ==> (r matches Some((d, s)) && d@ == d2 && s@ == t),
{
    let ghost sub = b@.subrange(start as int, end as int);
    let r = decode_field(b, start, end, e);
    proof {
        assert forall|d2: Seq<char>, t: Seq<char>|
            field_ok(e, d2) && #[trigger] (field_bytes(e, d2, true) + text_bytes(e, t)) == sub implies field_at(
                e,
                d2,
                b@,
                start as int,
                end as int,
            ) by {
            assert(b@.subrange(start as int, start + field_len(e, d2)) =~= sub.subrange(
                0,
                field_len(e, d2),
            ));
            assert(sub.subrange(0, field_len(e, d2)) =~= text_bytes(e, d2) + terminator(e));
        }
    }
    match r {
        Some((d, p)) => {
            let t = decode_text(b, p, end, e);
            proof {
                assert(sub =~= b@.subrange(start as int, p as int) + b@.subrange(p as int, end as int));
                assert forall|d2: Seq<char>, t2: Seq<char>|
                    field_ok(e, d2) && #[trigger] (field_bytes(e, d2, true) + text_bytes(e, t2)) == sub implies (t matches Some(
                        x,
                    ) && d@ == d2 && x@ == t2) by {
                    assert(b@.subrange(p as int, end as int) =~= sub.subrange(
                        field_len(e, d2),
                        sub.len() as int,
                    ));
                    assert(text_bytes(e, t2) =~= sub.subrange(field_len(e, d2), sub.len() as int));
                }
            }
            match t {
                Some(t) => Some((d, t)),
                None => None,
            }
        },
        None => None,
    }
}

/// Decodes the payload of a user-defined text frame.
fn decode_user_text(b: &[u8], start: usize, end: usize) -> (r: Option<FrameValue>)
    requires
        start <= end <= b@.len(),
    ensures
        r matches Some(v) ==> wf_view(v@) && fits(TXXX, v@) && encode_view(v@) == b@.subrange(
            start as int,
            end as int,
        ),
        forall|w: FrameView|
            wf_view(w) && fits(TXXX, w) && #[trigger] encode_view(w) == b@.subrange(
                start as int,
                end as int,
            ) ==> (r matches Some(v) && v@ == w),
{
    let ghost sub = b@.subrange(start as int, end as int);
    let e = match read_encoding(b, start, end) {
        Some(e) => e,
        None => {
            proof {
                assert forall|w: FrameView|
                    wf_view(w) && fits(TXXX, w) && #[trigger] encode_view(w) == sub implies false by {
                    if let FrameView::UserText(e2, d2, t2) = w {
                        assert(sub =~= seq![e2.raw()] + (field_bytes(e2, d2, true) + text_bytes(e2, t2)));
                        lemma_split_first(sub, e2.raw(), field_bytes(e2, d2, true) + text_bytes(e2, t2));
                        assert(b@[start as int] == sub[0]);
                    }
                }
            }
            return None;
        },
    };
    let r = decode_desc_text(b, start + 1, end, e);
    proof {
        assert(sub =~= seq![e.raw()] + b@.subrange(start + 1, end as int));
        assert forall|w: FrameView|
            wf_view(w) && fits(TXXX, w) && #[trigger] encode_view(w) == sub implies (r matches Some(
                (d, s),
            ) && w == FrameView::UserText(e, d@, s@)) by {
            if let FrameView::UserText(e2, d2, t2) = w {
                assert(sub =~= seq![e2.raw()] + (field_bytes(e2, d2, true) + text_bytes(e2, t2)));
                lemma_split_first(sub, e2.raw(), field_bytes(e2, d2, true) + text_bytes(e2, t2));
                assert(b@[start as int] == sub[0]);
                lemma_raw_inj(e, e2);
                assert(b@.subrange(start + 1, end as int) =~= sub.subrange(1, sub.len() as int));
            }
        }
    }
    match r {
        Some((d, s)) => Some(
            FrameValue::UserText(UserInfoFrame { text_encoding: e, description: d, text: s }),
        ),
        None => None,
    }
}

/// Decodes the payload of a lyrics or comment frame: encoding, language, description, text.
fn decode_lang_desc_text(b: &[u8], start: usize, end: usize) -> (r: Option<CommentFrame>)
    requires
        start <= end <= b@.len(),
    ensures
        r matches Some(f) ==> lang_ok(f.language@) && field_ok(f.text_encoding, f.content_description@)
            && seq![f.text_encoding.raw()] + encode_utf8(f.language@) + field_bytes(
            f.text_encoding,
            f.content_description@,
            true,
        ) + text_bytes(f.text_encoding, f.text@) == b@.subrange(start as int, end as int),
        forall|e2: TextEncoding, l2: Seq<char>, d2: Seq<char>, t2: Seq<char>|
            lang_ok(l2) && field_ok(e2, d2) && #[trigger] (seq![e2.raw()] + encode_utf8(l2)
                + field_bytes(e2, d2, true) + text_bytes(e2, t2)) == b@.subrange(
                start as int,
                end as int,
            ) ==> (r matches Some(f) && f.text_encoding == e2 && f.language@ == l2
                && f.content_description@ == d2 && f.text@ == t2),
{
    let ghost sub = b@.subrange(start as int, end as int);
    let e = match read_encoding(b, start, end) {
        Some(e) => e,
        None => {
            proof {
                assert forall|e2: TextEncoding, l2: Seq<char>, d2: Seq<char>, t2: Seq<char>|
                    lang_ok(l2) && field_ok(e2, d2) && #[trigger] (seq![e2.raw()] + encode_utf8(l2)
                        + field_bytes(e2, d2, true) + text_bytes(e2, t2)) == sub implies false by {
                    assert(sub =~= seq![e2.raw()] + (encode_utf8(l2) + field_bytes(e2, d2, true) + text_bytes(e2, t2)));
                    assert(sub =~= seq![e2.raw()] + (encode_utf8(l2) + field_bytes(e2, d2, true) + text_bytes(e2, t2)));
                lemma_split_first(sub, e2.raw(), encode_utf8(l2) + field_bytes(e2, d2, true) + text_bytes(e2, t2));
                    assert(b@[start as int] == sub[0]);
                }
            }
            return None;
        },
    };
    if end - start < 4 {
        proof {
            assert forall|e2: TextEncoding, l2: Seq<char>, d2: Seq<char>, t2: Seq<char>|
                lang_ok(l2) && field_ok(e2, d2) && #[trigger] (seq![e2.raw()] + encode_utf8(l2)
                    + field_bytes(e2, d2, true) + text_bytes(e2, t2)) == sub implies false by {
                assert(sub =~= seq![e2.raw()] + (encode_utf8(l2) + field_bytes(e2, d2, true) + text_bytes(e2, t2)));
                lemma_split_first(sub, e2.raw(), encode_utf8(l2) + field_bytes(e2, d2, true) + text_bytes(e2, t2));
            }
        }
        return None;
    }
    let lang = decode_text(b, start + 1, start + 4, TextEncoding::Iso8859_1);
    let rest = decode_desc_text(b, start + 4, end, e);
    proof {
        assert forall|e2: TextEncoding, l2: Seq<char>, d2: Seq<char>, t2: Seq<char>|
            lang_ok(l2) && field_ok(e2, d2) && #[trigger] (seq![e2.raw()] + encode_utf8(l2)
                + field_bytes(e2, d2, true) + text_bytes(e2, t2)) == sub implies (lang matches Some(
                l,
            ) && rest matches Some((d, s)) && e == e2 && l@ == l2 && d@ == d2 && s@ == t2) by {
            let rest2 = encode_utf8(l2) + field_bytes(e2, d2, true) + text_bytes(e2, t2);
            assert(sub =~= seq![e2.raw()] + rest2);
            lemma_split_first(sub, e2.raw(), rest2);
            assert(b@[start as int] == sub[0]);
            lemma_raw_inj(e, e2);
            assert(b@.subrange(start + 1, start + 4) =~= rest2.subrange(0, 3));
            assert(rest2.subrange(0, 3) =~= encode_utf8(l2));
            assert(b@.subrange(start + 4, end as int) =~= rest2.subrange(3, rest2.len() as int));
            assert(rest2.subrange(3, rest2.len() as int) =~= field_bytes(e2, d2, true) + text_bytes(e2, t2));
            assert(text_bytes(TextEncoding::Iso8859_1, l2) == encode_utf8(l2));
        }
    }
    match (lang, rest) {
        (Some(l), Some((d, s))) => {
            proof {
                assert(text_bytes(TextEncoding::Iso8859_1, l@) == encode_utf8(l@));
                assert(sub =~= seq![e.raw()] + b@.subrange(start + 1, start + 4) + b@.subrange(
                    start + 4,
                    end as int,
                ));
            }
            Some(CommentFrame { text_encoding: e, language: l, content_description: d, text: s })
        },
        _ => None,
    }
}

/// A piece of a concatenation stands at its offset.
proof fn lemma_piece(b: Seq<u8>, start: int, end: int, pre: Seq<u8>, piece: Seq<u8>, post: Seq<u8>)
    requires
        0 <= start <= end <= b.len(),
        b.subrange(start, end) =~= pre + piece + post,
    ensures
        start + pre.len() + piece.len() + post.len() == end,
        b.subrange(start + pre.len(), start + pre.len() + piece.len()) == piece,
        piece.len() > 0 ==> b[start + pre.len()] == piece[0],
{
    let sub = b.subrange(start, end);
    assert(sub.len() == pre.len() + piece.len() + post.len());
    assert(b.subrange(start + pre.len(), start + pre.len() + piece.len()) =~= piece) by {
        assert forall|k: int| 0 <= k < piece.len() implies b[start + pre.len() + k] == piece[k] by {
            assert(sub[pre.len() + k] == piece[k]);
        }
    }
    if piece.len() > 0 {
        assert(sub[pre.len() as int] == piece[0]);
    }
}

/// Decodes a timestamp format (1 or 2) followed by opaque bytes.
fn decode_timed(b: &[u8], start: usize, end: usize) -> (r: Option<TimedFrame>)
    requires
        start <= end <= b@.len(),
    ensures
        r matches Some(f) ==> (f.time_stamp_format == 1 || f.time_stamp_format == 2) && seq![
            f.time_stamp_format,
        ] + f.data@ == b@.subrange(start as int, end as int),
        forall|f2: u8, d2: Seq<u8>|
            (f2 == 1 || f2 == 2) && #[trigger] (seq![f2] + d2) == b@.subrange(start as int, end as int)
                ==> (r matches Some(f) && f.time_stamp_format == f2 && f.data@ == d2),
{
    let ghost sub = b@.subrange(start as int, end as int);
    if start >= end || (b[start] != 1 && b[start] != 2) {
        proof {
            assert forall|f2: u8, d2: Seq<u8>|
                (f2 == 1 || f2 == 2) && #[trigger] (seq![f2] + d2) == sub implies false by {
                lemma_split_first(sub, f2, d2);
                assert(b@[start as int] == sub[0]);
            }
        }
        return None;
    }
    let f = b[start];
    let data = copy_bytes(b, start + 1, end);
    proof {
        assert(sub =~= seq![f] + data@);
        assert forall|f2: u8, d2: Seq<u8>|
            (f2 == 1 || f2 == 2) && #[trigger] (seq![f2] + d2) == sub implies f == f2 && data@ == d2 by {
            lemma_split_first(sub, f2, d2);
            assert(data@ =~= sub.subrange(1, sub.len() as int));
        }
    }
    Some(TimedFrame { time_stamp_format: f, data })
}

proof fn lemma_picture_layout(
    b: Seq<u8>,
    start: int,
    end: int,
    e2: TextEncoding,
    m2: Seq<char>,
    t2: u8,
    d2: Seq<char>,
    data2: Seq<u8>,
)
    requires
        0 <= start <= end <= b.len(),
        wf_view(FrameView::AttachedPicture(e2, m2, t2, d2, data2)),
        encode_view(FrameView::AttachedPicture(e2, m2, t2, d2, data2)) == b.subrange(start, end),
    ensures
        start < end,
        b[start] == e2.raw(),
        field_at(TextEncoding::Iso8859_1, m2, b, start + 1, end),
        start + 1 + field_len(TextEncoding::Iso8859_1, m2) < end,
        b[start + 1 + field_len(TextEncoding::Iso8859_1, m2)] == t2,
        field_at(e2, d2, b, start + 2 + field_len(TextEncoding::Iso8859_1, m2), end),
        b.subrange(
            start + 2 + field_len(TextEncoding::Iso8859_1, m2) + field_len(e2, d2),
            end,
        ) == data2,
{
    let latin = TextEncoding::Iso8859_1;
    let sub = b.subrange(start, end);
    let x = seq![e2.raw()];
    let mb = text_bytes(latin, m2) + terminator(latin);
    let tb = seq![t2];
    let db = text_bytes(e2, d2) + terminator(e2);
    assert(sub =~= x + mb + tb + db + data2);
    lemma_piece(b, start, end, Seq::empty(), x, mb + tb + db + data2);
    lemma_piece(b, start, end, x, mb, tb + db + data2);
    let p1 = start + 1 + mb.len();
    lemma_piece(b, start, end, x + mb, tb, db + data2);
    lemma_piece(b, start, end, x + mb + tb, db, data2);
    lemma_piece(b, start, end, x + mb + tb + db, data2, Seq::empty());
}

/// Decodes the payload of an attached-picture frame.
fn decode_picture(b: &[u8], start: usize, end: usize) -> (r: Option<FrameValue>)
    requires
        start <= end <= b@.len(),
    ensures
        r matches Some(v) ==> wf_view(v@) && fits(APIC, v@) && encode_view(v@) == b@.subrange(
            start as int,
            end as int,
        ),
        forall|w: FrameView|
            wf_view(w) && fits(APIC, w) && #[trigger] encode_view(w) == b@.subrange(
                start as int,
                end as int,
            ) ==> (r matches Some(v) && v@ == w),
{
    let ghost sub = b@.subrange(start as int, end as int);
    let latin = TextEncoding::Iso8859_1;
    let e_opt = read_encoding(b, start, end);
    let mut m_opt: Option<(String, usize)> = None;
    let mut t_opt: Option<PictureType> = None;
    let mut d_opt: Option<(String, usize)> = None;
    if let Some(e) = e_opt {
        m_opt = decode_field(b, start + 1, end, latin);
        if let Some((_, p1)) = m_opt {
            if p1 < end {
                t_opt = PictureType::from_raw_value(b[p1]);
                if t_opt.is_some() {
                    d_opt = decode_field(b, p1 + 1, end, e);
                }
            }
        }
    }
    proof {
        assert forall|w: FrameView|
            wf_view(w) && fits(APIC, w) && #[trigger] encode_view(w) == sub implies (e_opt matches Some(e)
                && m_opt matches Some((m, p1)) && t_opt matches Some(t) && d_opt matches Some((d, p2))
                && w == FrameView::AttachedPicture(e, m@, t.raw(), d@, b@.subrange(p2 as int, end as int))) by {
            if let FrameView::AttachedPicture(e2, m2, t2, d2, data2) = w {
                lemma_picture_layout(b@, start as int, end as int, e2, m2, t2, d2, data2);
                lemma_raw_inj(e_opt->0, e2);
            }
        }
    }
    match (e_opt, m_opt, t_opt, d_opt) {
        (Some(e), Some((m, p1)), Some(t), Some((d, p2))) => {
            let data = copy_bytes(b, p2, end);
            proof {
                assert(sub =~= b@.subrange(start as int, start + 1) + b@.subrange(start + 1, p1 as int)
                    + b@.subrange(p1 as int, p1 + 1) + b@.subrange(p1 + 1, p2 as int) + b@.subrange(
                    p2 as int,
                    end as int,
                ));
                assert(b@.subrange(start as int, start + 1) =~= seq![e.raw()]);
                assert(b@.subrange(p1 as int, p1 + 1) =~= seq![t.raw()]);
                assert(field_bytes(latin, m@, true) == text_bytes(latin, m@) + terminator(latin));
                assert(field_bytes(e, d@, true) == text_bytes(e, d@) + terminator(e));
            }
            Some(
                FrameValue::AttachedPicture(
                    AttachedPictureFrame {
                        text_encoding: e,
                        mime_type: m,
                        picture_type: t,
                        description: d,
                        picture_data: data,
                    },
                ),
            )
        },
        _ => None,
    }
}

proof fn lemma_object_layout(
    b: Seq<u8>,
    start: int,
    end: int,
    e2: TextEncoding,
    m2: Seq<char>,
    f2: Seq<char>,
    d2: Seq<char>,
    o2: Seq<u8>,
)
    requires
        0 <= start <= end <= b.len(),
        wf_view(FrameView::EncapsulatedObject(e2, m2, f2, d2, o2)),
        encode_view(FrameView::EncapsulatedObject(e2, m2, f2, d2, o2)) == b.subrange(start, end),
    ensures
        start < end,
        b[start] == e2.raw(),
        field_at(TextEncoding::Iso8859_1, m2, b, start + 1, end),
        field_at(e2, f2, b, start + 1 + field_len(TextEncoding::Iso8859_1, m2), end),
        field_at(
            e2,
            d2,
            b,
            start + 1 + field_len(TextEncoding::Iso8859_1, m2) + field_len(e2, f2),
            end,
        ),
        b.subrange(
            start + 1 + field_len(TextEncoding::Iso8859_1, m2) + field_len(e2, f2) + field_len(e2, d2),
            end,
        ) == o2,
{
    let latin = TextEncoding::Iso8859_1;
    let sub = b.subrange(start, end);
    let x = seq![e2.raw()];
    let mb = text_bytes(latin, m2) + terminator(latin);
    let fb = text_bytes(e2, f2) + terminator(e2);
    let db = text_bytes(e2, d2) + terminator(e2);
    assert(sub =~= x + mb + fb + db + o2);
    lemma_piece(b, start, end, Seq::empty(), x, mb + fb + db + o2);
    lemma_piece(b, start, end, x, mb, fb + db + o2);
    lemma_piece(b, start, end, x + mb, fb, db + o2);
    lemma_piece(b, start, end, x + mb + fb, db, o2);
    lemma_piece(b, start, end, x + mb + fb + db, o2, Seq::empty());
}

/// Decodes the payload of a general-encapsulated-object frame.
fn decode_object(b: &[u8], start: usize, end: usize) -> (r: Option<FrameValue>)
    requires
        start <= end <= b@.len(),
    ensures
        r matches Some(v) ==> wf_view(v@) && fits(GEOB, v@) && encode_view(v@) == b@.subrange(
            start as int,
            end as int,
        ),
        forall|w: FrameView|
            wf_view(w) && fits(GEOB, w) && #[trigger] encode_view(w) == b@.subrange(
                start as int,
                end as int,
            ) ==> (r matches Some(v) && v@ == w),
{
    let ghost sub = b@.subrange(start as int, end as int);
    let latin = TextEncoding::Iso8859_1;
    let e_opt = read_encoding(b, start, end);
    let mut m_opt: Option<(String, usize)> = None;
    let mut f_opt: Option<(String, usize)> = None;
    let mut d_opt: Option<(String, usize)> = None;
    if let Some(e) = e_opt {
        m_opt = decode_field(b, start + 1, end, latin);
        if let Some((_, p1)) = m_opt {
            f_opt = decode_field(b, p1, end, e);
            if let Some((_, p2)) = f_opt {
                d_opt = decode_field(b, p2, end, e);
            }
        }
    }
    proof {
        assert forall|w: FrameView|
            wf_view(w) && fits(GEOB, w) && #[trigger] encode_view(w) == sub implies (e_opt matches Some(e)
                && m_opt matches Some((m, p1)) && f_opt matches Some((f, p2)) && d_opt matches Some((d, p3))
                && w == FrameView::EncapsulatedObject(e, m@, f@, d@, b@.subrange(p3 as int, end as int))) by {
            if let FrameView::EncapsulatedObject(e2, m2, f2, d2, o2) = w {
                lemma_object_layout(b@, start as int, end as int, e2, m2, f2, d2, o2);
                lemma_raw_inj(e_opt->0, e2);
            }
        }
    }
    match (e_opt, m_opt, f_opt, d_opt) {
        (Some(e), Some((m, p1)), Some((f, p2)), Some((d, p3))) => {
            let obj = copy_bytes(b, p3, end);
            proof {
                assert(sub =~= b@.subrange(start as int, start + 1) + b@.subrange(start + 1, p1 as int)
                    + b@.subrange(p1 as int, p2 as int) + b@.subrange(p2 as int, p3 as int) + b@.subrange(
                    p3 as int,
                    end as int,
                ));
                assert(b@.subrange(start as int, start + 1) =~= seq![e.raw()]);
            }
            Some(
                FrameValue::EncapsulatedObject(
                    GeneralEncapsulatedObjectFrame {
                        text_encoding: e,
                        mime_type: m,
                        filename: f,
                        description: d,
                        encapsulated_object: obj,
                    },
                ),
            )
        },
        _ => None,
    }
}

proof fn lemma_pow_small()
    ensures
        pow256(2) == 0x1_0000,
        pow256(4) == 0x1_0000_0000,
{
    reveal_with_fuel(pow256, 5);
}

/// Decodes the payload of an audio-encryption frame.
fn decode_audio_encryption(b: &[u8], start: usize, end: usize) -> (r: Option<FrameValue>)
    requires
        start <= end <= b@.len(),
    ensures
        r matches Some(v) ==> wf_view(v@) && fits(AENC, v@) && encode_view(v@) == b@.subrange(
            start as int,
            end as int,
        ),
        forall|w: FrameView|
            wf_view(w) && fits(AENC, w) && #[trigger] encode_view(w) == b@.subrange(
                start as int,
                end as int,
            ) ==> (r matches Some(v) && v@ == w),
{
    let ghost sub = b@.subrange(start as int, end as int);
    let latin = TextEncoding::Iso8859_1;
    let o_opt = decode_field(b, start, end, latin);
    let mut s_opt: Option<u64> = None;
    let mut l_opt: Option<u64> = None;
    if let Some((_, p1)) = o_opt {
        if p1 <= end && end - p1 >= 4 {
            s_opt = read_be(b, p1, 2);
            l_opt = read_be(b, p1 + 2, 2);
        }
    }
    proof {
        lemma_pow_small();
        assert forall|w: FrameView|
            wf_view(w) && fits(AENC, w) && #[trigger] encode_view(w) == sub implies (o_opt matches Some((o, p1))
                && s_opt matches Some(sv) && l_opt matches Some(lv) && w == FrameView::AudioEncryption(
                o@,
                sv as u16,
                lv as u16,
                b@.subrange(p1 + 4, end as int),
            )) by {
            if let FrameView::AudioEncryption(o2, s2, l2, i2) = w {
                let ob = text_bytes(latin, o2) + terminator(latin);
                let sb = be_seq(s2 as nat, 2);
                let lb = be_seq(l2 as nat, 2);
                lemma_be_seq_len(s2 as nat, 2);
                lemma_be_seq_len(l2 as nat, 2);
                assert(sub =~= ob + sb + lb + i2);
                lemma_piece(b@, start as int, end as int, Seq::empty(), ob, sb + lb + i2);
                assert(field_at(latin, o2, b@, start as int, end as int));
                lemma_piece(b@, start as int, end as int, ob, sb, lb + i2);
                lemma_piece(b@, start as int, end as int, ob + sb, lb, i2);
                lemma_piece(b@, start as int, end as int, ob + sb + lb, i2, Seq::empty());
                lemma_be_val_seq(s2 as nat, 2);
                lemma_be_val_seq(l2 as nat, 2);
            }
        }
    }
    match (o_opt, s_opt, l_opt) {
        (Some((o, p1)), Some(sv), Some(lv)) => {
            let info = copy_bytes(b, p1 + 4, end);
            proof {
                lemma_be_val_bound(b@.subrange(p1 as int, p1 + 2));
                lemma_be_val_bound(b@.subrange(p1 + 2, p1 + 4));
                lemma_be_seq_val(b@.subrange(p1 as int, p1 + 2));
                lemma_be_seq_val(b@.subrange(p1 + 2, p1 + 4));
                assert(sub =~= b@.subrange(start as int, p1 as int) + b@.subrange(p1 as int, p1 + 2)
                    + b@.subrange(p1 + 2, p1 + 4) + b@.subrange(p1 + 4, end as int));
            }
            Some(
                FrameValue::AudioEncryption(
                    AudioEncryptionFrame {
                        owner_id: o,
                        preview_start: sv as u16,
                        preview_length: lv as u16,
                        encryption_info: info,
                    },
                ),
            )
        },
        _ => None,
    }
}

/// Decodes the payload of a recommended-buffer-size frame: exactly nine bytes.
fn decode_buffer_size(b: &[u8], start: usize, end: usize) -> (r: Option<FrameValue>)
    requires
        start <= end <= b@.len(),
    ensures
        r matches Some(v) ==> wf_view(v@) && fits(RBUF, v@) && encode_view(v@) == b@.subrange(
            start as int,
            end as int,
        ),
        forall|w: FrameView|
            wf_view(w) && fits(RBUF, w) && #[trigger] encode_view(w) == b@.subrange(
                start as int,
                end as int,
            ) ==> (r matches Some(v) && v@ == w),
{
    let ghost sub = b@.subrange(start as int, end as int);
    proof {
        lemma_pow_small();
        assert forall|w: FrameView|
            wf_view(w) && fits(RBUF, w) && #[trigger] encode_view(w) == sub implies end - start == 9 && (
            b@[start + 4] == 0 || b@[start + 4] == 1) && w == FrameView::RecommendedBufferSize(
                be_val(b@.subrange(start as int, start + 4)) as u32,
                b@[start + 4] == 1,
                be_val(b@.subrange(start + 5, start + 9)) as u32,
            ) by {
            if let FrameView::RecommendedBufferSize(n2, f2, o2) = w {
                let nb = be_seq(n2 as nat, 4);
                let fb = seq![if f2 { 1u8 } else { 0u8 }];
                let ob = be_seq(o2 as nat, 4);
                lemma_be_seq_len(n2 as nat, 4);
                lemma_be_seq_len(o2 as nat, 4);
                lemma_piece(b@, start as int, end as int, Seq::empty(), nb, fb + ob);
                lemma_piece(b@, start as int, end as int, nb, fb, ob);
                lemma_piece(b@, start as int, end as int, nb + fb, ob, Seq::empty());
                lemma_be_val_seq(n2 as nat, 4);
                lemma_be_val_seq(o2 as nat, 4);
            }
        }
    }
    if end - start != 9 || (b[start + 4] != 0 && b[start + 4] != 1) {
        return None;
    }
    let n = read_be(b, start, 4).unwrap();
    let o = read_be(b, start + 5, 4).unwrap();
    proof {
        lemma_be_val_bound(b@.subrange(start as int, start + 4));
        lemma_be_val_bound(b@.subrange(start + 5, start + 9));
        lemma_be_seq_val(b@.subrange(start as int, start + 4));
        lemma_be_seq_val(b@.subrange(start + 5, start + 9));
        assert(sub =~= b@.subrange(start as int, start + 4) + seq![b@[start + 4]] + b@.subrange(
            start + 5,
            start + 9,
        ));
    }
    Some(
        FrameValue::RecommendedBufferSize(
            RecommendedBufferSizeFrame {
                buffer_size: n as u32,
                embedded_info_flag: b[start + 4] == 1,
                offset_next_tag: o as u32,
            },
        ),
    )
}

/// Decodes the payload of a terms-of-use frame: encoding, language, text.
fn decode_terms(b: &[u8], start: usize, end: usize) -> (r: Option<FrameValue>)
    requires
        start <= end <= b@.len(),
    ensures
        r matches Some(v) ==> wf_view(v@) && fits(USER, v@) && encode_view(v@) == b@.subrange(
            start as int,
            end as int,
        ),
        forall|w: FrameView|
            wf_view(w) && fits(USER, w) && #[trigger] encode_view(w) == b@.subrange(
                start as int,
                end as int,
            ) ==> (r matches Some(v) && v@ == w),
{
    let ghost sub = b@.subrange(start as int, end as int);
    let latin = TextEncoding::Iso8859_1;
    let e_opt = read_encoding(b, start, end);
    let mut l_opt: Option<String> = None;
    let mut t_opt: Option<String> = None;
    if let Some(e) = e_opt {
        if end - start >= 4 {
            l_opt = decode_text(b, start + 1, start + 4, latin);
            t_opt = decode_text(b, start + 4, end, e);
        }
    }
    proof {
        assert forall|w: FrameView|
            wf_view(w) && fits(USER, w) && #[trigger] encode_view(w) == sub implies (e_opt matches Some(e)
                && l_opt matches Some(l) && t_opt matches Some(t) && w == FrameView::TermsOfUse(
                e,
                l@,
                t@,
            )) by {
            if let FrameView::TermsOfUse(e2, l2, t2) = w {
                let x = seq![e2.raw()];
                let lb = encode_utf8(l2);
                let tb = text_bytes(e2, t2);
                lemma_piece(b@, start as int, end as int, Seq::empty(), x, lb + tb);
                lemma_raw_inj(e_opt->0, e2);
                lemma_piece(b@, start as int, end as int, x, lb, tb);
                lemma_piece(b@, start as int, end as int, x + lb, tb, Seq::empty());
                assert(text_bytes(latin, l2) == lb);
            }
        }
    }
    match (e_opt, l_opt, t_opt) {
        (Some(e), Some(l), Some(t)) => {
            proof {
                assert(text_bytes(latin, l@) == encode_utf8(l@));
                assert(sub =~= seq![e.raw()] + b@.subrange(start + 1, start + 4) + b@.subrange(
                    start + 4,
                    end as int,
                ));
            }
            Some(FrameValue::TermsOfUse(TermsUseFrame { text_encoding: e, language: l, text: t }))
        },
        _ => None,
    }
}

/// Decodes the payload of a compilation flag: a Latin-1 "1" or "0".
fn decode_compilation(b: &[u8], start: usize, end: usize) -> (r: Option<FrameValue>)
    requires
        start <= end <= b@.len(),
    ensures
        r matches Some(v) ==> wf_view(v@) && fits(TCMP, v@) && encode_view(v@) == b@.subrange(
            start as int,
            end as int,
        ),
        forall|w: FrameView|
            wf_view(w) && fits(TCMP, w) && #[trigger] encode_view(w) == b@.subrange(
                start as int,
                end as int,
            ) ==> (r matches Some(v) && v@ == w),
{
    let ghost sub = b@.subrange(start as int, end as int);
    proof {
        assert forall|w: FrameView|
            wf_view(w) && fits(TCMP, w) && #[trigger] encode_view(w) == sub implies end - start == 2
                && b@[start as int] == 0 && (b@[start + 1] == 0x31 || b@[start + 1] == 0x30) && w
                == FrameView::Compilation(b@[start + 1] == 0x31) by {
            if let FrameView::Compilation(c) = w {
                assert(sub.len() == 2);
                assert(sub[0] == b@[start as int]);
                assert(sub[1] == b@[start + 1]);
            }
        }
    }
    if end - start != 2 || b[start] != 0 || (b[start + 1] != 0x31 && b[start + 1] != 0x30) {
        return None;
    }
    assert(sub =~= seq![0u8, b@[start + 1]]);
    Some(FrameValue::Compilation(b[start + 1] == 0x31))
}

/// Decodes the payload of frame `id` from `b[start..end]`.
///
/// Every payload that decodes is one that writes back as exactly these bytes; and every
/// well-formed payload of the kind `id` carries decodes back to itself. Unknown identifiers
/// keep their bytes verbatim.
pub fn decode_frame_value(b: &[u8], start: usize, end: usize, id: u32) -> (r: Option<FrameValue>)
    requires
        start <= end <= b@.len(),
    ensures
        r matches Some(v) ==> wf_view(v@) && fits(id, v@) && encode_view(v@) == b@.subrange(
            start as int,
            end as int,
        ),
        forall|w: FrameView|
            wf_view(w) && fits(id, w) && #[trigger] encode_view(w) == b@.subrange(
                start as int,
                end as int,
            ) ==> (r matches Some(v) && v@ == w),
{
    let ghost sub = b@.subrange(start as int, end as int);
    if is_text_frame_id(id) || id == IPLS {
        let r = decode_enc_text(b, start, end);
        proof {
            assert forall|w: FrameView|
                wf_view(w) && fits(id, w) && #[trigger] encode_view(w) == sub implies (r matches Some(
                    (e, s),
                ) && (w == FrameView::Text(e, s@) || w == FrameView::InvolvedPeople(e, s@))) by {
                match w {
                    FrameView::Text(e2, t2) => {
                        assert(seq![e2.raw()] + text_bytes(e2, t2) == sub);
                    },
                    FrameView::InvolvedPeople(e2, t2) => {
                        assert(seq![e2.raw()] + text_bytes(e2, t2) == sub);
                    },
                    _ => {},
                }
            }
        }
        match r {
            Some((e, s)) => {
                if id == IPLS {
                    Some(
                        FrameValue::InvolvedPeople(
                            InvolvedPeopleFrame { text_encoding: e, people_list: s },
                        ),
                    )
                } else {
                    Some(FrameValue::Text(TextFrame { text_encoding: e, text: s }))
                }
            },
            None => None,
        }
    } else if id == TXXX {
        decode_user_text(b, start, end)
    } else if is_url_frame_id(id) {
        let r = decode_text(b, start, end, TextEncoding::UnicodeUtf8);
        proof {
            assert forall|w: FrameView|
                wf_view(w) && fits(id, w) && #[trigger] encode_view(w) == sub implies (r matches Some(
                    u,
                ) && w == FrameView::Url(u@)) by {
                if let FrameView::Url(u2) = w {
                    assert(text_bytes(TextEncoding::UnicodeUtf8, u2) == sub);
                }
            }
        }
        match r {
            Some(u) => Some(FrameValue::Url(UrlFrame { url: u })),
            None => None,
        }
    } else if id == ETCO || id == SYTC {
        let r = decode_timed(b, start, end);
        proof {
            assert forall|w: FrameView|
                wf_view(w) && fits(id, w) && #[trigger] encode_view(w) == sub implies (r matches Some(
                    f,
                ) && (w == FrameView::EventTiming(f.time_stamp_format, f.data@) || w
                    == FrameView::SyncTempo(f.time_stamp_format, f.data@))) by {
                match w {
                    FrameView::EventTiming(f2, d2) => {
                        assert(seq![f2] + d2 == sub);
                    },
                    FrameView::SyncTempo(f2, d2) => {
                        assert(seq![f2] + d2 == sub);
                    },
                    _ => {},
                }
            }
        }
        match r {
            Some(f) => {
                if id == ETCO {
                    Some(FrameValue::EventTiming(f))
                } else {
                    Some(FrameValue::SyncTempo(f))
                }
            },
            None => None,
        }
    } else if id == USLT || id == COMM {
        let r = decode_lang_desc_text(b, start, end);
        proof {
            assert forall|w: FrameView|
                wf_view(w) && fits(id, w) && #[trigger] encode_view(w) == sub implies (r matches Some(
                    f,
                ) && (w == FrameView::UnsyncLyrics(
                    f.text_encoding,
                    f.language@,
                    f.content_description@,
                    f.text@,
                ) || w == FrameView::Comment(
                    f.text_encoding,
                    f.language@,
                    f.content_description@,
                    f.text@,
                ))) by {
                match w {
                    FrameView::UnsyncLyrics(e2, l2, d2, t2) => {
                        assert(seq![e2.raw()] + encode_utf8(l2) + field_bytes(e2, d2, true)
                            + text_bytes(e2, t2) == sub);
                    },
                    FrameView::Comment(e2, l2, d2, t2) => {
                        assert(seq![e2.raw()] + encode_utf8(l2) + field_bytes(e2, d2, true)
                            + text_bytes(e2, t2) == sub);
                    },
                    _ => {},
                }
            }
        }
        match r {
            Some(f) => {
                if id == USLT {
                    Some(FrameValue::UnsyncLyrics(f))
                } else {
                    Some(FrameValue::Comment(f))
                }
            },
            None => None,
        }
    } else if id == APIC {
        decode_picture(b, start, end)
    } else if id == GEOB {
        decode_object(b, start, end)
    } else if id == RBUF {
        decode_buffer_size(b, start, end)
    } else if id == AENC {
        decode_audio_encryption(b, start, end)
    } else if id == USER {
        decode_terms(b, start, end)
    } else if id == TCMP {
        decode_compilation(b, start, end)
    } else if id == UFID || id == PRIV {
        let r = decode_owner_data(b, start, end);
        proof {
            assert forall|w: FrameView|
                wf_view(w) && fits(id, w) && #[trigger] encode_view(w) == sub implies (r matches Some(
                    (o, d),
                ) && (w == FrameView::UniqueFileId(o@, d@) || w == FrameView::Private(o@, d@))) by {
                match w {
                    FrameView::UniqueFileId(o2, d2) => {
                        assert(field_bytes(TextEncoding::Iso8859_1, o2, true) + d2 == sub);
                    },
                    FrameView::Private(o2, d2) => {
                        assert(field_bytes(TextEncoding::Iso8859_1, o2, true) + d2 == sub);
                    },
                    _ => {},
                }
            }
        }
        match r {
            Some((o, d)) => {
                if id == UFID {
                    Some(FrameValue::UniqueFileId(UniqueFileIdentifierFrame { owner_id: o, id: d }))
                } else {
                    Some(FrameValue::Private(PrivateFrame { owner_id: o, private_data: d }))
                }
            },
            None => None,
        }
    } else {
        let d = copy_bytes(b, start, end);
        let v = if id == MCDI {
            FrameValue::MusicCdId(d)
        } else if id == MLLT {
            FrameValue::LocationLookupTable(d)
        } else if id == SYLT {
            FrameValue::SyncLyrics(d)
        } else if id == RVAD {
            FrameValue::RelativeVolume(d)
        } else if id == EQUA {
            FrameValue::Equalisation(d)
        } else if id == RVRB {
            FrameValue::Reverb(d)
        } else if id == PCNT {
            FrameValue::PlayCounter(d)
        } else if id == POPM {
            FrameValue::Popularimeter(d)
        } else if id == LINK {
            FrameValue::LinkedInfo(d)
        } else if id == POSS {
            FrameValue::PositionSync(d)
        } else if id == OWNE {
            FrameValue::Ownership(d)
        } else if id == COMR {
            FrameValue::Commercial(d)
        } else if id == ENCR {
            FrameValue::EncryptionMethodRegistration(d)
        } else if id == GRID {
            FrameValue::GroupIdRegistration(d)
        } else {
            FrameValue::Undefined(d)
        };
        Some(v)
    }
}

} // verus!
