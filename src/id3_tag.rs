//! The ID3v2.3 tag: a ten-byte header, a list of frames, padding and the audio that follows.
use vstd::prelude::*;
use vstd::string::*;
use crate::bytes::{be_seq, be_val, read_be, write_be, lemma_be_seq_len, lemma_be_val_bound, pow256, synchsafe, unsynchsafe, synchsafe_spec, unsynchsafe_spec};
use crate::text::TextEncoding;
use crate::id3_frameid::is_text_id;
use crate::id3_frame_value::{FrameValue, FrameView, encode_view, wf_view, fits, TextFrame, CommentFrame, AttachedPictureFrame, PictureType};
use crate::id3_frameid::{ID3TEXTFRAMEID, USLT, COMM, APIC};
use crate::format::{PictureFormat, decimal_of, signed_decimal_of, u16_to_string, i16_to_string};
use crate::id3_frame::{ID3FRAME, MAX_TAG_SIZE, frame_bytes, valid_id, decode_frame};
use crate::tag_error::TagError;

verus! {

/// The bytes of a list of frames, one after the other.
pub open spec fn frames_bytes(fs: Seq<ID3FRAME>) -> Seq<u8>
    decreases fs.len(),
{
    if fs.len() == 0 {
        Seq::empty()
    } else {
        frames_bytes(fs.drop_last()) + fs.last().bytes()
    }
}

/// The sum of the sizes of a list of frames.
pub open spec fn frames_total(fs: Seq<ID3FRAME>) -> nat
    decreases fs.len(),
{
    if fs.len() == 0 {
        0
    } else {
        frames_total(fs.drop_last()) + fs.last().size as nat
    }
}

/// Some well-formed frame can be read at offset `q` of `b`, ending at or before `end`.
pub open spec fn frame_starts(b: Seq<u8>, q: int, end: int) -> bool {
    exists|id: u32, f1: u8, f2: u8, w: FrameView|
        valid_id(id) && wf_view(w) && fits(id, w) && q + frame_bytes(id, f1, f2, w).len() <= end
            && b.subrange(q, q + frame_bytes(id, f1, f2, w).len()) == #[trigger] frame_bytes(
            id,
            f1,
            f2,
            w,
        )
}

pub proof fn lemma_frames_len(fs: Seq<ID3FRAME>)
    requires
        forall|i: int| 0 <= i < fs.len() ==> #[trigger] fs[i].wf(),
    ensures
        frames_bytes(fs).len() == frames_total(fs),
    decreases fs.len(),
{
    if fs.len() > 0 {
        lemma_frames_len(fs.drop_last());
        let f = fs.last();
        assert(fs[fs.len() - 1].wf());
        lemma_be_seq_len(f.frame_id as nat, 4);
        lemma_be_seq_len(encode_view(f.value@).len(), 4);
    }
}

pub proof fn lemma_frames_total_push(fs: Seq<ID3FRAME>, f: ID3FRAME)
    ensures
        frames_total(fs.push(f)) == frames_total(fs) + f.size,
        frames_bytes(fs.push(f)) == frames_bytes(fs) + f.bytes(),
{
    assert(fs.push(f).drop_last() =~= fs);
}

/// The header flag bits that ID3v2.3 defines: unsynchronisation, extended header, experimental.
pub const HEADER_FLAGS_MASK: u8 = 0xe0;

/// An ID3v2.3 tag and the audio data that follows it in its file.
pub struct ID3TAG {
    pub file_path: String,
    pub major_version: u8,
    pub minor_version: u8,
    /// The header flags: bit 7 unsynchronisation, bit 6 extended header, bit 5 experimental.
    pub flags: u8,
    /// The declared size of the tag, its ten-byte header included.
    pub size: u32,
    pub frames: Vec<ID3FRAME>,
    pub padding: u32,
    pub music_data: Vec<u8>,
}

impl ID3TAG {
    /// Version 3, every frame well formed, and the size equal to the header, the frames and
    /// the padding together.
    pub open spec fn wf(&self) -> bool {
        &&& self.major_version == 3
        &&& self.flags & 0x1f == 0
        &&& forall|i: int| 0 <= i < self.frames@.len() ==> #[trigger] self.frames@[i].wf()
        &&& self.size as nat == 10 + frames_total(self.frames@) + self.padding
        &&& self.size <= MAX_TAG_SIZE
    }

    pub open spec fn total_spec(&self) -> nat {
        10 + frames_total(self.frames@) + self.padding as nat
    }

    /// The bytes of the tag followed by the audio data.
    pub open spec fn bytes(&self) -> Seq<u8> {
        seq![0x49u8, 0x44u8, 0x33u8, self.major_version, self.minor_version, self.flags] + be_seq(
            synchsafe_spec(self.size) as nat,
            4,
        ) + frames_bytes(self.frames@) + Seq::new(self.padding as nat, |i: int| 0u8)
            + self.music_data@
    }
}

/// The frame `f` carries identifier `id` and a text payload.
pub open spec fn text_frame_with(f: ID3FRAME, id: u32) -> bool {
    f.frame_id == id && f.value is Text
}

/// The text of the first text frame with identifier `id`, if there is one.
pub open spec fn first_text(fs: Seq<ID3FRAME>, id: u32) -> Option<Seq<char>> {
    if exists|i: int| 0 <= i < fs.len() && #[trigger] text_frame_with(fs[i], id) {
        let i = choose|i: int|
            0 <= i < fs.len() && #[trigger] text_frame_with(fs[i], id) && forall|j: int|
                0 <= j < i ==> !#[trigger] text_frame_with(fs[j], id);
        Some(fs[i].value->Text_0.text@)
    } else {
        None
    }
}

proof fn lemma_first_exists(fs: Seq<ID3FRAME>, id: u32, k: int)
    requires
        0 <= k < fs.len(),
        text_frame_with(fs[k], id),
    ensures
        exists|i: int|
            0 <= i < fs.len() && #[trigger] text_frame_with(fs[i], id) && forall|j: int|
                0 <= j < i ==> !#[trigger] text_frame_with(fs[j], id),
    decreases k,
{
    if exists|j: int| 0 <= j < k && #[trigger] text_frame_with(fs[j], id) {
        let j = choose|j: int| 0 <= j < k && #[trigger] text_frame_with(fs[j], id);
        lemma_first_exists(fs, id, j);
    } else {
        assert(forall|j: int| 0 <= j < k ==> !#[trigger] text_frame_with(fs[j], id));
    }
}

/// The frame `f` carries identifier `id`.
pub open spec fn has_id(f: ID3FRAME, id: u32) -> bool {
    f.frame_id == id
}

proof fn lemma_first_id_exists(fs: Seq<ID3FRAME>, id: u32, k: int)
    requires
        0 <= k < fs.len(),
        has_id(fs[k], id),
    ensures
        exists|i: int|
            0 <= i < fs.len() && #[trigger] has_id(fs[i], id) && forall|j: int|
                0 <= j < i ==> !#[trigger] has_id(fs[j], id),
    decreases k,
{
    if exists|j: int| 0 <= j < k && #[trigger] has_id(fs[j], id) {
        let j = choose|j: int| 0 <= j < k && #[trigger] has_id(fs[j], id);
        lemma_first_id_exists(fs, id, j);
    } else {
        assert(forall|j: int| 0 <= j < k ==> !#[trigger] has_id(fs[j], id));
    }
}

/// The index of the first frame with identifier `id`, or -1.
pub open spec fn first_id_index(fs: Seq<ID3FRAME>, id: u32) -> int {
    if exists|i: int| 0 <= i < fs.len() && #[trigger] has_id(fs[i], id) {
        choose|i: int|
            0 <= i < fs.len() && #[trigger] has_id(fs[i], id) && forall|j: int|
                0 <= j < i ==> !#[trigger] has_id(fs[j], id)
    } else {
        -1
    }
}

proof fn lemma_first_id_index(fs: Seq<ID3FRAME>, id: u32, i: int)
    requires
        0 <= i < fs.len(),
        has_id(fs[i], id),
        forall|j: int| 0 <= j < i ==> !#[trigger] has_id(fs[j], id),
    ensures
        first_id_index(fs, id) == i,
{
    lemma_first_id_exists(fs, id, i);
    let k = first_id_index(fs, id);
    if k < i {
        assert(!has_id(fs[k], id));
    }
    if k > i {
        assert(!has_id(fs[i], id));
    }
}

/// Setting the text of frame `id` to payload `v` keeps the tag within its largest size.
#[verifier::opaque]
pub open spec fn set_fits(t: ID3TAG, id: u32, v: FrameView) -> bool {
    let n = 10 + encode_view(v).len();
    let i = first_id_index(t.frames@, id);
    if i >= 0 {
        t.size - t.frames@[i].size + n <= MAX_TAG_SIZE
    } else {
        t.size + n <= MAX_TAG_SIZE
    }
}

/// The encoding that a new text frame of a tag of major version `version` uses for `s`:
/// Latin-1 for ASCII text, else UTF-16 (little-endian) for version 3 and UTF-8 otherwise.
pub open spec fn encoding_for(s: Seq<char>, version: u8) -> TextEncoding {
    if vstd::utf8::is_ascii_chars(s) {
        TextEncoding::Iso8859_1
    } else if version == 3 {
        TextEncoding::UnicodeUtf16
    } else {
        TextEncoding::UnicodeUtf8
    }
}

impl TextFrame {
    /// A text frame holding `text`, in the encoding `encoding_for` picks.
    pub fn new(tag_version: u8, text: String) -> (r: TextFrame)
        ensures
            r.text@ == text@,
            r.text_encoding == encoding_for(text@, tag_version),
    {
        let text_encoding = if text.as_str().is_ascii() {
            TextEncoding::Iso8859_1
        } else if tag_version == 3 {
            TextEncoding::UnicodeUtf16
        } else {
            TextEncoding::UnicodeUtf8
        };
        TextFrame { text_encoding, text }
    }

    pub fn get_text(&self) -> (r: String)
        ensures
            r@ == self.text@,
    {
        self.text.clone()
    }
}

impl ID3TAG {
    /// Reads a tag from the start of `buffer`.
    ///
    /// The header must hold "ID3", major version 3 and a synchsafe size counting the header
    /// itself; frames are read one after the other until fewer than ten bytes of the declared
    /// size remain or no frame can be read, and the rest is padding. What follows the declared
    /// size is the audio data.
    pub fn from_bytes(buffer: &[u8]) -> (r: Result<ID3TAG, TagError>)
        ensures
            r matches Ok(t) ==> {
                let b = buffer@;
                let size = unsynchsafe_spec(be_val(b.subrange(6, 10)) as u32);
                &&& b.len() >= 10 && b[0] == 0x49 && b[1] == 0x44 && b[2] == 0x33 && b[3] == 3
                &&& t.wf()
                &&& t.minor_version == b[4]
                &&& t.flags == b[5] & HEADER_FLAGS_MASK
                &&& t.size == size
                &&& 10 <= size <= b.len()
                &&& frames_bytes(t.frames@) == b.subrange(10, 10 + frames_total(t.frames@) as int)
                &&& t.music_data@ == b.subrange(size as int, b.len() as int)
                &&& forall|i: int| 0 <= i < t.frames@.len() ==> valid_id((#[trigger] t.frames@[i]).frame_id)
                    && wf_view(t.frames@[i].value@) && fits(t.frames@[i].frame_id, t.frames@[i].value@)
                &&& (t.padding < 10 || !frame_starts(b, 10 + frames_total(t.frames@) as int, size as int))
            },
            buffer@.len() < 10 <==> r == Err::<ID3TAG, TagError>(TagError::TruncatedInput) && buffer@.len() < 10,
            r == Err::<ID3TAG, TagError>(TagError::ID3TagNotFound) <==> (buffer@.len() >= 10 && !(
            buffer@[0] == 0x49 && buffer@[1] == 0x44 && buffer@[2] == 0x33)),
            r == Err::<ID3TAG, TagError>(TagError::UnsupportedVersion) <==> (buffer@.len() >= 10 && buffer@[0]
                == 0x49 && buffer@[1] == 0x44 && buffer@[2] == 0x33 && buffer@[3] != 3),
            buffer@.len() >= 10 && buffer@[0] == 0x49 && buffer@[1] == 0x44 && buffer@[2] == 0x33 && buffer@[3] == 3
                ==> (r is Ok <==> 10 <= unsynchsafe_spec(be_val(buffer@.subrange(6, 10)) as u32) <= buffer@.len()),
            r is Err ==> r->Err_0 != TagError::ReusedLangDescription && r->Err_0 != TagError::LangWrongSize
                && r->Err_0 != TagError::UnknownBlockType && r->Err_0 != TagError::TagTooLarge && r->Err_0 != TagError::FlacTagNotFound,
    {
        if buffer.len() < 10 {
            return Err(TagError::TruncatedInput);
        }
        if !(buffer[0] == 0x49 && buffer[1] == 0x44 && buffer[2] == 0x33) {
            return Err(TagError::ID3TagNotFound);
        }
        if buffer[3] != 3 {
            return Err(TagError::UnsupportedVersion);
        }
        let raw = read_be(buffer, 6, 4).unwrap();
        proof {
            lemma_be_val_bound(buffer@.subrange(6, 10));
            reveal_with_fuel(pow256, 5);
        }
        let size = unsynchsafe(raw as u32);
        if size < 10 || size as usize > buffer.len() {
            return Err(TagError::TruncatedInput);
        }
        let end = size as usize;
        let mut frames: Vec<ID3FRAME> = Vec::new();
        let mut pos: usize = 10;
        let mut stopped = false;
        while end - pos >= 10 && !stopped
            invariant
                10 <= pos <= end <= buffer@.len(),
                end <= MAX_TAG_SIZE,
                forall|i: int| 0 <= i < frames@.len() ==> #[trigger] frames@[i].wf(),
                forall|i: int| 0 <= i < frames@.len() ==> valid_id((#[trigger] frames@[i]).frame_id)
                    && wf_view(frames@[i].value@) && fits(frames@[i].frame_id, frames@[i].value@),
                frames_bytes(frames@) == buffer@.subrange(10, pos as int),
                frames_total(frames@) == pos - 10,
                stopped ==> !frame_starts(buffer@, pos as int, end as int),
            decreases end - pos + (if stopped { 0int } else { 1int }),
        {
            match decode_frame(buffer, pos, end) {
                Some((f, p)) => {
                    proof {
                        lemma_frames_total_push(frames@, f);
                        lemma_frames_len(frames@);
                        assert(buffer@.subrange(10, p as int) =~= buffer@.subrange(10, pos as int)
                            + buffer@.subrange(pos as int, p as int));
                        lemma_be_seq_len(f.frame_id as nat, 4);
                        lemma_be_seq_len(encode_view(f.value@).len(), 4);
                    }
                    frames.push(f);
                    pos = p;
                },
                None => {
                    stopped = true;
                },
            }
        }
        let mut music_data: Vec<u8> = Vec::new();
        let mut k: usize = end;
        while k < buffer.len()
            invariant
                end <= k <= buffer@.len(),
                music_data@ == buffer@.subrange(end as int, k as int),
            decreases buffer@.len() - k,
        {
            music_data.push(buffer[k]);
            k = k + 1;
            assert(music_data@ =~= buffer@.subrange(end as int, k as int));
        }
        let t = ID3TAG {
            file_path: String::new(),
            major_version: 3,
            minor_version: buffer[4],
            flags: buffer[5] & HEADER_FLAGS_MASK,
            size,
            frames,
            padding: (end - pos) as u32,
            music_data,
        };
        proof {
            let fl = buffer[5];
            assert(fl & 0xe0 & 0x1f == 0) by (bit_vector);
        }
        Ok(t)
    }
}

impl ID3TAG {
    /// An empty tag with 10 000 bytes of padding and no audio data.
    pub fn new_empty_tag() -> (r: ID3TAG)
        ensures
            r.wf(),
            r.frames@.len() == 0,
            r.padding == 10_000,
            r.size == 10_010,
            r.flags == 0,
            r.minor_version == 0,
            r.major_version == 3,
            r.music_data@.len() == 0,
    {
        let r = ID3TAG {
            file_path: String::new(),
            major_version: 3,
            minor_version: 0,
            flags: 0,
            size: 10_010,
            frames: Vec::new(),
            padding: 10_000,
            music_data: Vec::new(),
        };
        assert(0u8 & 0x1f == 0) by (bit_vector);
        assert(frames_total(r.frames@) == 0);
        r
    }

    /// The bytes of the tag (header, frames, zero padding) followed by the audio data.
    pub fn as_bytes(&self) -> (r: Vec<u8>)
        requires
            self.wf(),
        ensures
            r@ == self.bytes(),
    {
        let mut out: Vec<u8> = Vec::new();
        out.push(0x49);
        out.push(0x44);
        out.push(0x33);
        out.push(self.major_version);
        out.push(self.minor_version);
        out.push(self.flags);
        write_be(&mut out, synchsafe(self.size) as u64, 4);
        let ghost head = out@;
        let mut i: usize = 0;
        while i < self.frames.len()
            invariant
                self.wf(),
                i <= self.frames@.len(),
                out@ == head + frames_bytes(self.frames@.subrange(0, i as int)),
            decreases self.frames@.len() - i,
        {
            let fb = self.frames[i].as_bytes();
            crate::text::append_slice(&mut out, fb.as_slice());
            proof {
                assert(self.frames@.subrange(0, i + 1).drop_last() =~= self.frames@.subrange(0, i as int));
            }
            i = i + 1;
            assert(out@ =~= head + frames_bytes(self.frames@.subrange(0, i as int)));
        }
        assert(self.frames@.subrange(0, self.frames@.len() as int) =~= self.frames@);
        let ghost mid = out@;
        let mut k: u32 = 0;
        while k < self.padding
            invariant
                k <= self.padding,
                out@ == mid + Seq::new(k as nat, |i: int| 0u8),
            decreases self.padding - k,
        {
            out.push(0);
            k = k + 1;
            assert(out@ =~= mid + Seq::new(k as nat, |i: int| 0u8));
        }
        crate::text::append_slice(&mut out, self.music_data.as_slice());
        assert(out@ =~= self.bytes());
        out
    }

    /// The sum of the sizes of the frames.
    pub fn frame_total_size(&self) -> (r: u32)
        requires
            self.wf(),
        ensures
            r as nat == frames_total(self.frames@),
    {
        let mut total: u32 = 0;
        let mut i: usize = 0;
        while i < self.frames.len()
            invariant
                self.wf(),
                i <= self.frames@.len(),
                total as nat == frames_total(self.frames@.subrange(0, i as int)),
                frames_total(self.frames@.subrange(0, i as int)) <= frames_total(self.frames@),
            decreases self.frames@.len() - i,
        {
            proof {
                assert(self.frames@.subrange(0, i + 1).drop_last() =~= self.frames@.subrange(0, i as int));
                lemma_frames_total_prefix(self.frames@, i + 1);
            }
            total = total + self.frames[i].total_size();
            i = i + 1;
        }
        assert(self.frames@.subrange(0, self.frames@.len() as int) =~= self.frames@);
        total
    }

    /// The size the tag has: header, frames and padding.
    pub fn total_size(&self) -> (r: u32)
        requires
            self.wf(),
        ensures
            r as nat == self.total_spec(),
            r == self.size,
    {
        self.frame_total_size() + self.padding + 10
    }

    /// Sets the declared size from the frames and the padding.
    pub fn recalcule_size(&mut self)
        requires
            old(self).total_spec() <= MAX_TAG_SIZE,
            old(self).major_version == 3,
            old(self).flags & 0x1f == 0,
            forall|i: int| 0 <= i < old(self).frames@.len() ==> #[trigger] old(self).frames@[i].wf(),
        ensures
            final(self).wf(),
            final(self).frames == old(self).frames,
            final(self).padding == old(self).padding,
            final(self).music_data == old(self).music_data,
            final(self).minor_version == old(self).minor_version,
            final(self).flags == old(self).flags,
            final(self).same_header(old(self)),
    {
        let mut total: u32 = 10 + self.padding;
        let mut i: usize = 0;
        while i < self.frames.len()
            invariant
                i <= self.frames@.len(),
                forall|j: int| 0 <= j < self.frames@.len() ==> #[trigger] self.frames@[j].wf(),
                total as nat == 10 + self.padding + frames_total(self.frames@.subrange(0, i as int)),
                self.total_spec() <= MAX_TAG_SIZE,
            decreases self.frames@.len() - i,
        {
            proof {
                assert(self.frames@.subrange(0, i + 1).drop_last() =~= self.frames@.subrange(0, i as int));
                lemma_frames_total_prefix(self.frames@, i + 1);
            }
            total = total + self.frames[i].total_size();
            i = i + 1;
        }
        assert(self.frames@.subrange(0, self.frames@.len() as int) =~= self.frames@);
        self.size = total;
    }
}

/// A prefix of a list of frames weighs no more than the list.
pub proof fn lemma_frames_total_prefix(fs: Seq<ID3FRAME>, n: int)
    requires
        0 <= n <= fs.len(),
    ensures
        frames_total(fs.subrange(0, n)) <= frames_total(fs),
    decreases fs.len(),
{
    if n < fs.len() {
        assert(fs.drop_last().subrange(0, n) =~= fs.subrange(0, n));
        lemma_frames_total_prefix(fs.drop_last(), n);
    } else {
        assert(fs.subrange(0, n) =~= fs);
    }
}

/// Replacing one frame changes the sum of the sizes by the difference of the two.
pub proof fn lemma_frames_total_update(fs: Seq<ID3FRAME>, i: int, g: ID3FRAME)
    requires
        0 <= i < fs.len(),
    ensures
        frames_total(fs.update(i, g)) + fs[i].size == frames_total(fs) + g.size,
    decreases fs.len(),
{
    if i == fs.len() - 1 {
        assert(fs.update(i, g).drop_last() =~= fs.drop_last());
    } else {
        assert(fs.update(i, g).drop_last() =~= fs.drop_last().update(i, g));
        lemma_frames_total_update(fs.drop_last(), i, g);
    }
}

/// The frames that a removal of identifier `id` keeps.
pub open spec fn keeps(id: u32) -> spec_fn(ID3FRAME) -> bool {
    |f: ID3FRAME| f.frame_id != id
}

/// No frame weighs more than the list it stands in.
pub proof fn lemma_frames_total_elem(fs: Seq<ID3FRAME>, i: int)
    requires
        0 <= i < fs.len(),
    ensures
        fs[i].size <= frames_total(fs),
    decreases fs.len(),
{
    if i < fs.len() - 1 {
        lemma_frames_total_elem(fs.drop_last(), i);
    }
}

/// Dropping frames never makes the sum of the sizes larger.
pub proof fn lemma_frames_total_filter(fs: Seq<ID3FRAME>, id: u32)
    ensures
        frames_total(fs.filter(keeps(id))) <= frames_total(fs),
    decreases fs.len(),
{
    if fs.len() > 0 {
        let pred = keeps(id);
        lemma_frames_total_filter(fs.drop_last(), id);
        assert(fs =~= fs.drop_last().push(fs.last()));
        fs.drop_last().lemma_filter_push(fs.last(), pred);
        lemma_frames_total_push(fs.drop_last().filter(pred), fs.last());
    }
}

/// The outcome of setting the text of frame `id` to the payload `v`: the first frame with
/// that identifier takes the new payload (its flags kept), or a new frame is appended
/// when there is none.
pub open spec fn text_set(old: Seq<ID3FRAME>, new: Seq<ID3FRAME>, id: u32, v: FrameView) -> bool {
    if exists|i: int| 0 <= i < old.len() && #[trigger] has_id(old[i], id) {
        exists|i: int|
            0 <= i < old.len() && #[trigger] has_id(old[i], id) && (forall|j: int|
                0 <= j < i ==> !#[trigger] has_id(old[j], id)) && new.len() == old.len() && (
            forall|j: int| 0 <= j < old.len() && j != i ==> new[j] == old[j]) && new[i].frame_id == id
                && new[i].value@ == v && new[i].flags1 == old[i].flags1 && new[i].flags2
                == old[i].flags2
    } else {
        &&& new.len() == old.len() + 1
        &&& new.subrange(0, old.len() as int) == old
        &&& new[old.len() as int].frame_id == id
        &&& new[old.len() as int].value@ == v
        &&& new[old.len() as int].flags1 == 0
        &&& new[old.len() as int].flags2 == 0
    }
}

impl ID3TAG {
    /// Whether nothing but the frames and the size differ between `self` and `o`.
    pub open spec fn same_header(&self, o: &ID3TAG) -> bool {
        &&& self.file_path == o.file_path
        &&& self.major_version == o.major_version
        &&& self.minor_version == o.minor_version
        &&& self.flags == o.flags
        &&& self.padding == o.padding
        &&& self.music_data == o.music_data
    }

    /// Index of the first frame with identifier `id`.
    fn find_frame(&self, id: u32) -> (r: Option<usize>)
        ensures
            r matches Some(i) ==> i < self.frames@.len() && has_id(self.frames@[i as int], id)
                && forall|j: int| 0 <= j < i ==> !#[trigger] has_id(self.frames@[j], id),
            r is None ==> forall|j: int| 0 <= j < self.frames@.len() ==> !#[trigger] has_id(self.frames@[j], id),
    {
        let mut i: usize = 0;
        while i < self.frames.len()
            invariant
                i <= self.frames@.len(),
                forall|j: int| 0 <= j < i ==> !#[trigger] has_id(self.frames@[j], id),
            decreases self.frames@.len() - i,
        {
            if self.frames[i].frame_id == id {
                return Some(i);
            }
            i = i + 1;
        }
        None
    }

    /// Index of the first text frame with identifier `id`.
    fn find_text_frame(&self, id: u32) -> (r: Option<usize>)
        ensures
            r matches Some(i) ==> i < self.frames@.len() && text_frame_with(self.frames@[i as int], id)
                && forall|j: int| 0 <= j < i ==> !#[trigger] text_frame_with(self.frames@[j], id),
            r is None ==> forall|j: int|
                0 <= j < self.frames@.len() ==> !#[trigger] text_frame_with(self.frames@[j], id),
    {
        let mut i: usize = 0;
        while i < self.frames.len()
            invariant
                i <= self.frames@.len(),
                forall|j: int| 0 <= j < i ==> !#[trigger] text_frame_with(self.frames@[j], id),
            decreases self.frames@.len() - i,
        {
            if self.frames[i].frame_id == id && self.frames[i].as_text_frame().is_some() {
                return Some(i);
            }
            i = i + 1;
        }
        None
    }

    /// The text of the first text frame with identifier `id`.
    pub fn get_text_from_text_frame(&self, id: u32) -> (r: Option<String>)
        ensures
            r matches Some(s) ==> first_text(self.frames@, id) == Some(s@),
            r is None ==> first_text(self.frames@, id) is None,
    {
        match self.find_text_frame(id) {
            Some(i) => {
                proof {
                    lemma_first_exists(self.frames@, id, i as int);
                    let k = choose|k: int|
                        0 <= k < self.frames@.len() && #[trigger] text_frame_with(self.frames@[k], id)
                            && forall|j: int| 0 <= j < k ==> !#[trigger] text_frame_with(self.frames@[j], id);
                    if k < i {
                        assert(!text_frame_with(self.frames@[k], id));
                    }
                    if k > i {
                        assert(!text_frame_with(self.frames@[i as int], id));
                    }
                }
                Some(self.frames[i].as_text_frame().unwrap().get_text())
            },
            None => None,
        }
    }

    /// Sets the first frame with identifier `id` to hold `text`, or appends a new one.
    /// The frame's size and then the tag's size are recomputed. When the tag would outgrow
    /// the largest size its header can declare, it is left as it was.
    /// Puts `value` in frame `i` (identifier and flags kept) and recomputes the sizes; `false`,
    /// with the tag unchanged, when the tag would outgrow its largest size.
    pub fn replace_frame_value(&mut self, i: usize, value: FrameValue) -> (r: bool)
        requires
            old(self).wf(),
            i < old(self).frames@.len(),
        ensures
            final(self).wf(),
            final(self).same_header(old(self)),
            r <==> old(self).size - old(self).frames@[i as int].size + 10 + encode_view(value@).len()
                <= MAX_TAG_SIZE,
            r ==> final(self).frames@.len() == old(self).frames@.len() && (forall|j: int|
                0 <= j < old(self).frames@.len() && j != i ==> final(self).frames@[j] == old(self).frames@[j])
                && final(self).frames@[i as int].frame_id == old(self).frames@[i as int].frame_id
                && final(self).frames@[i as int].value@ == value@ && final(self).frames@[i as int].flags1
                == old(self).frames@[i as int].flags1 && final(self).frames@[i as int].flags2
                == old(self).frames@[i as int].flags2,
            !r ==> final(self).frames@ == old(self).frames@ && final(self).size == old(self).size,
    {
        let ghost v = value@;
        let old_size = self.frames[i].size;
        proof {
            lemma_frames_total_elem(self.frames@, i as int);
        }
        let raw = value.raw_size();
        if raw > (MAX_TAG_SIZE - 10) as usize {
            return false;
        }
        let ns = raw as u32 + 10;
        if self.size - old_size > MAX_TAG_SIZE - ns {
            return false;
        }
        let ghost old_frames = self.frames@;
        let mut f = self.frames.remove(i);
        f.value = value;
        f.size = ns;
        self.frames.insert(i, f);
        proof {
            assert(self.frames@ =~= old_frames.update(i as int, f));
            lemma_frames_total_update(old_frames, i as int, f);
            assert forall|j: int| 0 <= j < self.frames@.len() implies #[trigger] self.frames@[j].wf() by {
                if j != i {
                    assert(self.frames@[j] == old_frames[j]);
                }
            }
        }
        self.size = self.size - old_size + ns;
        true
    }

    /// Sets the first frame with identifier `id` to hold `text`, or appends a new one.
    /// The frame's size and then the tag's size are recomputed. When the tag would outgrow
    /// the largest size its header can declare, it is left as it was.
    pub fn set_text_frame(&mut self, id: u32, text: &str)
        requires
            old(self).wf(),
        ensures
            final(self).wf(),
            final(self).same_header(old(self)),
            set_fits(*old(self), id, FrameView::Text(encoding_for(text@, old(self).major_version), text@))
                ==> text_set(
                old(self).frames@,
                final(self).frames@,
                id,
                FrameView::Text(encoding_for(text@, old(self).major_version), text@),
            ),
            !set_fits(*old(self), id, FrameView::Text(encoding_for(text@, old(self).major_version), text@))
                ==> final(self).frames@ == old(self).frames@ && final(self).size == old(self).size,
    {
        let value = FrameValue::Text(TextFrame::new(self.major_version, text.to_owned()));
        let ghost v = value@;
        let ghost old_tag = *self;
        let found = self.find_frame(id);
        proof {
            reveal(set_fits);
            match found {
                Some(i) => lemma_first_id_index(self.frames@, id, i as int),
                None => {},
            }
        }
        match found {
            Some(i) => {
                let ok = self.replace_frame_value(i, value);
                proof {
                    if ok {
                        assert(text_set(old_tag.frames@, self.frames@, id, v));
                    }
                }
            },
            None => {
                let ok = self.push_frame(id, value);
                proof {
                    if ok {
                        assert(self.frames@[old_tag.frames@.len() as int] == self.frames@.last());
                        assert(text_set(old_tag.frames@, self.frames@, id, v));
                    }
                }
            },
        }
    }

    /// Removes every frame with identifier `id`, and recomputes the size.
    pub fn remove_frames(&mut self, id: u32)
        requires
            old(self).wf(),
        ensures
            final(self).wf(),
            final(self).same_header(old(self)),
            final(self).frames@ == old(self).frames@.filter(keeps(id)),
    {
        let ghost all = self.frames@;
        let mut rest: Vec<ID3FRAME> = Vec::new();
        std::mem::swap(&mut rest, &mut self.frames);
        let mut k: usize = 0;
        let n = rest.len();
        assert(all.subrange(0, 0).filter(keeps(id)) =~= Seq::<ID3FRAME>::empty()) by {
            reveal(Seq::filter);
        }
        while rest.len() > 0
            invariant
                n == all.len(),
                k + rest@.len() == n,
                rest@ == all.subrange(k as int, n as int),
                self.frames@ == all.subrange(0, k as int).filter(keeps(id)),
                forall|i: int| 0 <= i < all.len() ==> #[trigger] all[i].wf(),
                frames_total(all) + 10 + self.padding <= MAX_TAG_SIZE,
                self.same_header(old(self)),
                self.major_version == 3,
                self.flags & 0x1f == 0,
            decreases rest@.len(),
        {
            let f = rest.remove(0);
            let ghost prev = self.frames@;
            proof {
                assert(all.subrange(0, k + 1) =~= all.subrange(0, k as int).push(f));
                all.subrange(0, k as int).lemma_filter_push(f, keeps(id));
            }
            if f.frame_id != id {
                self.frames.push(f);
                assert(self.frames@ == all.subrange(0, k + 1).filter(keeps(id)));
            } else {
                assert(f.frame_id == id);
                assert(keeps(id)(f) == (f.frame_id != id));
                assert(!keeps(id)(f));
                assert(self.frames@ == all.subrange(0, k + 1).filter(keeps(id)));
            }
            k = k + 1;
            assert(rest@ =~= all.subrange(k as int, n as int));
        }
        proof {
            assert(all.subrange(0, n as int) =~= all);
            lemma_frames_total_filter(all, id);
            assert forall|i: int| 0 <= i < self.frames@.len() implies #[trigger] self.frames@[i].wf() by {
                all.lemma_filter_contains_rev(keeps(id), self.frames@[i]);
                assert(all.filter(keeps(id)).contains(self.frames@[i]));
            }
        }
        self.recalcule_size();
    }
}

/// `r` is the text of the first text frame of `fs` with identifier `id`.
pub open spec fn text_result(r: Option<String>, fs: Seq<ID3FRAME>, id: u32) -> bool {
    match r {
        Some(s) => first_text(fs, id) == Some(s@),
        None => first_text(fs, id) is None,
    }
}

/// `new` is `old` after its text frame `id` was set to `text`: see `set_text_frame`.
pub open spec fn text_set_done(old: ID3TAG, new: ID3TAG, id: u32, text: Seq<char>) -> bool {
    &&& new.wf()
    &&& new.same_header(&old)
    &&& set_fits(old, id, FrameView::Text(encoding_for(text, old.major_version), text)) ==> text_set(
        old.frames@,
        new.frames@,
        id,
        FrameView::Text(encoding_for(text, old.major_version), text),
    )
    &&& !set_fits(old, id, FrameView::Text(encoding_for(text, old.major_version), text)) ==> new.frames@
        == old.frames@ && new.size == old.size
}

/// `new` is `old` without its frames of identifier `id`.
pub open spec fn removed(old: ID3TAG, new: ID3TAG, id: u32) -> bool {
    &&& new.wf()
    &&& new.same_header(&old)
    &&& new.frames@ == old.frames@.filter(keeps(id))
}

/// The number a string reads as, for `str::parse::<i16>`.
pub uninterp spec fn parsed_i16(s: Seq<char>) -> Option<i16>;

/// The number a string reads as, for `str::parse::<usize>`.
pub uninterp spec fn parsed_usize(s: Seq<char>) -> Option<usize>;

/// Relies on `str::parse::<i16>`; its result depends on the characters alone.
#[verifier::external_body]
fn parse_i16(s: &str) -> (r: Option<i16>)
    ensures
        r == parsed_i16(s@),
{
    s.parse().ok()
}

/// Relies on `str::parse::<usize>`; its result depends on the characters alone.
#[verifier::external_body]
fn parse_usize(s: &str) -> (r: Option<usize>)
    ensures
        r == parsed_usize(s@),
{
    s.parse().ok()
}

impl ID3TAG {
    /// Returns the song artist (TPE1).
    pub fn artist(&self) -> (r: Option<String>)
        ensures
            text_result(r, self.frames@, ID3TEXTFRAMEID::TPE1.code_spec()),
    {
        self.get_text_from_text_frame(ID3TEXTFRAMEID::TPE1.code())
    }

    /// Returns the album's artist (TPE2).
    pub fn album_artist(&self) -> (r: Option<String>)
        ensures
            text_result(r, self.frames@, ID3TEXTFRAMEID::TPE2.code_spec()),
    {
        self.get_text_from_text_frame(ID3TEXTFRAMEID::TPE2.code())
    }

    /// Returns the album name (TALB).
    pub fn album(&self) -> (r: Option<String>)
        ensures
            text_result(r, self.frames@, ID3TEXTFRAMEID::TALB.code_spec()),
    {
        self.get_text_from_text_frame(ID3TEXTFRAMEID::TALB.code())
    }

    /// Returns the genre (TCON).
    pub fn genre(&self) -> (r: Option<String>)
        ensures
            text_result(r, self.frames@, ID3TEXTFRAMEID::TCON.code_spec()),
    {
        self.get_text_from_text_frame(ID3TEXTFRAMEID::TCON.code())
    }

    /// Returns the publisher (TPUB).
    pub fn publisher(&self) -> (r: Option<String>)
        ensures
            text_result(r, self.frames@, ID3TEXTFRAMEID::TPUB.code_spec()),
    {
        self.get_text_from_text_frame(ID3TEXTFRAMEID::TPUB.code())
    }

    /// Returns the beats per minute (TBPM).
    pub fn bpm(&self) -> (r: Option<String>)
        ensures
            text_result(r, self.frames@, ID3TEXTFRAMEID::TBPM.code_spec()),
    {
        self.get_text_from_text_frame(ID3TEXTFRAMEID::TBPM.code())
    }

    /// Returns the composers (TCOM).
    pub fn composers(&self) -> (r: Option<String>)
        ensures
            text_result(r, self.frames@, ID3TEXTFRAMEID::TCOM.code_spec()),
    {
        self.get_text_from_text_frame(ID3TEXTFRAMEID::TCOM.code())
    }

    /// Returns the copyright message (TCOP).
    pub fn copyright(&self) -> (r: Option<String>)
        ensures
            text_result(r, self.frames@, ID3TEXTFRAMEID::TCOP.code_spec()),
    {
        self.get_text_from_text_frame(ID3TEXTFRAMEID::TCOP.code())
    }

    /// Returns the recording day, in DDMM form (TDAT).
    pub fn date(&self) -> (r: Option<String>)
        ensures
            text_result(r, self.frames@, ID3TEXTFRAMEID::TDAT.code_spec()),
    {
        self.get_text_from_text_frame(ID3TEXTFRAMEID::TDAT.code())
    }

    /// Returns who encoded the track (TENC).
    pub fn encoded_by(&self) -> (r: Option<String>)
        ensures
            text_result(r, self.frames@, ID3TEXTFRAMEID::TENC.code_spec()),
    {
        self.get_text_from_text_frame(ID3TEXTFRAMEID::TENC.code())
    }

    /// Returns the file type (TFLT).
    pub fn file_type(&self) -> (r: Option<String>)
        ensures
            text_result(r, self.frames@, ID3TEXTFRAMEID::TFLT.code_spec()),
    {
        self.get_text_from_text_frame(ID3TEXTFRAMEID::TFLT.code())
    }

    /// Returns the recording time, in HHMM form (TIME).
    pub fn time(&self) -> (r: Option<String>)
        ensures
            text_result(r, self.frames@, ID3TEXTFRAMEID::TIME.code_spec()),
    {
        self.get_text_from_text_frame(ID3TEXTFRAMEID::TIME.code())
    }

    /// Returns the title (TIT2).
    pub fn title(&self) -> (r: Option<String>)
        ensures
            text_result(r, self.frames@, ID3TEXTFRAMEID::TIT2.code_spec()),
    {
        self.get_text_from_text_frame(ID3TEXTFRAMEID::TIT2.code())
    }

    /// Returns the track position (TRCK).
    pub fn track_position(&self) -> (r: Option<String>)
        ensures
            text_result(r, self.frames@, ID3TEXTFRAMEID::TRCK.code_spec()),
    {
        self.get_text_from_text_frame(ID3TEXTFRAMEID::TRCK.code())
    }

    /// Returns the disc position (TPOS).
    pub fn disc(&self) -> (r: Option<String>)
        ensures
            text_result(r, self.frames@, ID3TEXTFRAMEID::TPOS.code_spec()),
    {
        self.get_text_from_text_frame(ID3TEXTFRAMEID::TPOS.code())
    }

    /// Sets the song artist (TPE1).
    pub fn set_artist(&mut self, name: &str)
        requires
            old(self).wf(),
        ensures
            text_set_done(*old(self), *final(self), ID3TEXTFRAMEID::TPE1.code_spec(), name@),
    {
        self.set_text_frame(ID3TEXTFRAMEID::TPE1.code(), name)
    }

    /// Sets the album's artist (TPE2).
    pub fn set_album_artist(&mut self, artist: &str)
        requires
            old(self).wf(),
        ensures
            text_set_done(*old(self), *final(self), ID3TEXTFRAMEID::TPE2.code_spec(), artist@),
    {
        self.set_text_frame(ID3TEXTFRAMEID::TPE2.code(), artist)
    }

    /// Sets the album name (TALB).
    pub fn set_album(&mut self, album: &str)
        requires
            old(self).wf(),
        ensures
            text_set_done(*old(self), *final(self), ID3TEXTFRAMEID::TALB.code_spec(), album@),
    {
        self.set_text_frame(ID3TEXTFRAMEID::TALB.code(), album)
    }

    /// Sets the genre (TCON).
    pub fn set_genre(&mut self, genre: &str)
        requires
            old(self).wf(),
        ensures
            text_set_done(*old(self), *final(self), ID3TEXTFRAMEID::TCON.code_spec(), genre@),
    {
        self.set_text_frame(ID3TEXTFRAMEID::TCON.code(), genre)
    }

    /// Sets the publisher (TPUB).
    pub fn set_publisher(&mut self, publisher: &str)
        requires
            old(self).wf(),
        ensures
            text_set_done(*old(self), *final(self), ID3TEXTFRAMEID::TPUB.code_spec(), publisher@),
    {
        self.set_text_frame(ID3TEXTFRAMEID::TPUB.code(), publisher)
    }

    /// Sets the composers (TCOM).
    pub fn set_composers(&mut self, composers: &str)
        requires
            old(self).wf(),
        ensures
            text_set_done(*old(self), *final(self), ID3TEXTFRAMEID::TCOM.code_spec(), composers@),
    {
        self.set_text_frame(ID3TEXTFRAMEID::TCOM.code(), composers)
    }

    /// Sets the encoder (TENC).
    pub fn set_encoder(&mut self, encoder: &str)
        requires
            old(self).wf(),
        ensures
            text_set_done(*old(self), *final(self), ID3TEXTFRAMEID::TENC.code_spec(), encoder@),
    {
        self.set_text_frame(ID3TEXTFRAMEID::TENC.code(), encoder)
    }

    /// Sets the title (TIT2).
    pub fn set_title(&mut self, title: &str)
        requires
            old(self).wf(),
        ensures
            text_set_done(*old(self), *final(self), ID3TEXTFRAMEID::TIT2.code_spec(), title@),
    {
        self.set_text_frame(ID3TEXTFRAMEID::TIT2.code(), title)
    }

    /// Removes the song artist (TPE1).
    pub fn remove_artist(&mut self)
        requires
            old(self).wf(),
        ensures
            removed(*old(self), *final(self), ID3TEXTFRAMEID::TPE1.code_spec()),
    {
        self.remove_frames(ID3TEXTFRAMEID::TPE1.code())
    }

    /// Removes the album's artist (TPE2).
    pub fn remove_album_artist(&mut self)
        requires
            old(self).wf(),
        ensures
            removed(*old(self), *final(self), ID3TEXTFRAMEID::TPE2.code_spec()),
    {
        self.remove_frames(ID3TEXTFRAMEID::TPE2.code())
    }

    /// Removes the album name (TALB).
    pub fn remove_album(&mut self)
        requires
            old(self).wf(),
        ensures
            removed(*old(self), *final(self), ID3TEXTFRAMEID::TALB.code_spec()),
    {
        self.remove_frames(ID3TEXTFRAMEID::TALB.code())
    }

    /// Removes the genre (TCON).
    pub fn remove_genre(&mut self)
        requires
            old(self).wf(),
        ensures
            removed(*old(self), *final(self), ID3TEXTFRAMEID::TCON.code_spec()),
    {
        self.remove_frames(ID3TEXTFRAMEID::TCON.code())
    }

    /// Removes the publisher (TPUB).
    pub fn remove_publisher(&mut self)
        requires
            old(self).wf(),
        ensures
            removed(*old(self), *final(self), ID3TEXTFRAMEID::TPUB.code_spec()),
    {
        self.remove_frames(ID3TEXTFRAMEID::TPUB.code())
    }

    /// Removes the beats per minute (TBPM).
    pub fn remove_bpm(&mut self)
        requires
            old(self).wf(),
        ensures
            removed(*old(self), *final(self), ID3TEXTFRAMEID::TBPM.code_spec()),
    {
        self.remove_frames(ID3TEXTFRAMEID::TBPM.code())
    }

    /// Removes the composers (TCOM).
    pub fn remove_composers(&mut self)
        requires
            old(self).wf(),
        ensures
            removed(*old(self), *final(self), ID3TEXTFRAMEID::TCOM.code_spec()),
    {
        self.remove_frames(ID3TEXTFRAMEID::TCOM.code())
    }

    /// Removes the date (TDAT).
    pub fn remove_date(&mut self)
        requires
            old(self).wf(),
        ensures
            removed(*old(self), *final(self), ID3TEXTFRAMEID::TDAT.code_spec()),
    {
        self.remove_frames(ID3TEXTFRAMEID::TDAT.code())
    }

    /// Removes the encoder (TENC).
    pub fn remove_encoder(&mut self)
        requires
            old(self).wf(),
        ensures
            removed(*old(self), *final(self), ID3TEXTFRAMEID::TENC.code_spec()),
    {
        self.remove_frames(ID3TEXTFRAMEID::TENC.code())
    }

    /// Removes the recording time (TIME).
    pub fn remove_time(&mut self)
        requires
            old(self).wf(),
        ensures
            removed(*old(self), *final(self), ID3TEXTFRAMEID::TIME.code_spec()),
    {
        self.remove_frames(ID3TEXTFRAMEID::TIME.code())
    }

    /// Removes the title (TIT2).
    pub fn remove_title(&mut self)
        requires
            old(self).wf(),
        ensures
            removed(*old(self), *final(self), ID3TEXTFRAMEID::TIT2.code_spec()),
    {
        self.remove_frames(ID3TEXTFRAMEID::TIT2.code())
    }

    /// Removes the track length (TLEN).
    pub fn remove_music_len(&mut self)
        requires
            old(self).wf(),
        ensures
            removed(*old(self), *final(self), ID3TEXTFRAMEID::TLEN.code_spec()),
    {
        self.remove_frames(ID3TEXTFRAMEID::TLEN.code())
    }

    /// Removes the year (TYER).
    pub fn remove_year(&mut self)
        requires
            old(self).wf(),
        ensures
            removed(*old(self), *final(self), ID3TEXTFRAMEID::TYER.code_spec()),
    {
        self.remove_frames(ID3TEXTFRAMEID::TYER.code())
    }

    /// Removes the track position (TRCK).
    pub fn remove_track_position(&mut self)
        requires
            old(self).wf(),
        ensures
            removed(*old(self), *final(self), ID3TEXTFRAMEID::TRCK.code_spec()),
    {
        self.remove_frames(ID3TEXTFRAMEID::TRCK.code())
    }

    /// Removes the disc position (TPOS).
    pub fn remove_disc(&mut self)
        requires
            old(self).wf(),
        ensures
            removed(*old(self), *final(self), ID3TEXTFRAMEID::TPOS.code_spec()),
    {
        self.remove_frames(ID3TEXTFRAMEID::TPOS.code())
    }

    /// Sets the beats per minute (TBPM), in decimal.
    pub fn set_bpm(&mut self, bpm: u16)
        requires
            old(self).wf(),
        ensures
            text_set_done(*old(self), *final(self), ID3TEXTFRAMEID::TBPM.code_spec(), decimal_of(bpm as nat)),
    {
        let s = u16_to_string(bpm);
        self.set_text_frame(ID3TEXTFRAMEID::TBPM.code(), s.as_str())
    }

    /// Sets the year (TYER), in decimal.
    pub fn set_year(&mut self, year: i16)
        requires
            old(self).wf(),
        ensures
            text_set_done(*old(self), *final(self), ID3TEXTFRAMEID::TYER.code_spec(), signed_decimal_of(year as int)),
    {
        let s = i16_to_string(year);
        self.set_text_frame(ID3TEXTFRAMEID::TYER.code(), s.as_str())
    }

    /// Sets the track position (TRCK): "n", or "n/total" when the total is given.
    pub fn set_track_position(&mut self, track_pos: u16, out_of: Option<u16>)
        requires
            old(self).wf(),
        ensures
            text_set_done(*old(self), *final(self), ID3TEXTFRAMEID::TRCK.code_spec(), position_text(track_pos, out_of)),
    {
        let s = position_string(track_pos, out_of);
        self.set_text_frame(ID3TEXTFRAMEID::TRCK.code(), s.as_str())
    }

    /// Sets the disc position (TPOS): "n", or "n/total" when the total is given.
    pub fn set_disc(&mut self, disc: u16, out_of: Option<u16>)
        requires
            old(self).wf(),
        ensures
            text_set_done(*old(self), *final(self), ID3TEXTFRAMEID::TPOS.code_spec(), position_text(disc, out_of)),
    {
        let s = position_string(disc, out_of);
        self.set_text_frame(ID3TEXTFRAMEID::TPOS.code(), s.as_str())
    }

    /// Returns the track's length in milliseconds (TLEN), when its text reads as a number.
    pub fn music_len(&self) -> (r: Option<usize>)
        ensures
            r == match first_text(self.frames@, ID3TEXTFRAMEID::TLEN.code_spec()) {
                Some(s) => parsed_usize(s),
                None => None,
            },
    {
        match self.get_text_from_text_frame(ID3TEXTFRAMEID::TLEN.code()) {
            Some(s) => parse_usize(s.as_str()),
            None => None,
        }
    }

    /// Returns the year (TYER), when its text reads as a number.
    pub fn year(&self) -> (r: Option<i16>)
        ensures
            r == match first_text(self.frames@, ID3TEXTFRAMEID::TYER.code_spec()) {
                Some(s) => parsed_i16(s),
                None => None,
            },
    {
        match self.get_text_from_text_frame(ID3TEXTFRAMEID::TYER.code()) {
            Some(s) => parse_i16(s.as_str()),
            None => None,
        }
    }

    /// Removes every unsynchronised-lyrics frame (USLT).
    pub fn remove_all_lyrics(&mut self)
        requires
            old(self).wf(),
        ensures
            removed(*old(self), *final(self), USLT),
    {
        self.remove_frames(USLT)
    }

    /// Removes every comment frame (COMM).
    pub fn remove_all_comments(&mut self)
        requires
            old(self).wf(),
        ensures
            removed(*old(self), *final(self), COMM),
    {
        self.remove_frames(COMM)
    }

    /// Removes every attached picture (APIC).
    pub fn remove_all_attached_pictures(&mut self)
        requires
            old(self).wf(),
        ensures
            removed(*old(self), *final(self), APIC),
    {
        self.remove_frames(APIC)
    }
}

/// The text of a position: "n", or "n/total".
pub open spec fn position_text(n: u16, out_of: Option<u16>) -> Seq<char> {
    match out_of {
        Some(m) => decimal_of(n as nat) + seq!['/'] + decimal_of(m as nat),
        None => decimal_of(n as nat),
    }
}

/// The text of a position: "n", or "n/total".
pub fn position_string(n: u16, out_of: Option<u16>) -> (r: String)
    ensures
        r@ == position_text(n, out_of),
{
    match out_of {
        Some(m) => {
            proof {
                reveal_strlit("/");
            }
            let a = u16_to_string(n);
            let c = u16_to_string(m);
            let r = a.concat("/").concat(c.as_str());
            assert(r@ =~= decimal_of(n as nat) + seq!['/'] + decimal_of(m as nat));
            r
        },
        None => u16_to_string(n),
    }
}

/// The lyrics of the unsynchronised-lyrics frames, in order.
pub open spec fn lyrics_of(fs: Seq<ID3FRAME>) -> Seq<Seq<char>>
    decreases fs.len(),
{
    if fs.len() == 0 {
        Seq::empty()
    } else {
        let rest = lyrics_of(fs.drop_last());
        match fs.last().value {
            FrameValue::UnsyncLyrics(c) => rest.push(c.text@),
            _ => rest,
        }
    }
}

/// The (description, text) pairs of the comment frames, in order.
pub open spec fn comments_of(fs: Seq<ID3FRAME>) -> Seq<(Seq<char>, Seq<char>)>
    decreases fs.len(),
{
    if fs.len() == 0 {
        Seq::empty()
    } else {
        let rest = comments_of(fs.drop_last());
        match fs.last().value {
            FrameValue::Comment(c) => rest.push((c.content_description@, c.text@)),
            _ => rest,
        }
    }
}

/// The picture data of the attached pictures, in order.
pub open spec fn pictures_of(fs: Seq<ID3FRAME>) -> Seq<Seq<u8>>
    decreases fs.len(),
{
    if fs.len() == 0 {
        Seq::empty()
    } else {
        let rest = pictures_of(fs.drop_last());
        match fs.last().value {
            FrameValue::AttachedPicture(p) => rest.push(p.picture_data@),
            _ => rest,
        }
    }
}

/// The description given, or the empty one.
pub open spec fn desc_or_empty(d: Option<String>) -> Seq<char> {
    match d {
        Some(d) => d@,
        None => Seq::<char>::empty(),
    }
}

/// The payload of a new attached picture: Latin-1 when the description is ASCII, else
/// UTF-16; the type defaults to "other".
pub open spec fn picture_view(mime: Seq<char>, t: Option<PictureType>, d: Seq<char>, data: Seq<u8>) -> FrameView {
    FrameView::AttachedPicture(
        if vstd::utf8::is_ascii_chars(d) {
            TextEncoding::Iso8859_1
        } else {
            TextEncoding::UnicodeUtf16
        },
        mime,
        match t {
            Some(t) => t.raw(),
            None => PictureType::Other.raw(),
        },
        d,
        data,
    )
}

/// The payload of new lyrics (or a comment): Latin-1 when the description and the text are
/// ASCII, else UTF-16.
pub open spec fn lang_view(lyrics: bool, lang: Seq<char>, d: Seq<char>, text: Seq<char>) -> FrameView {
    let e = if vstd::utf8::is_ascii_chars(d) && vstd::utf8::is_ascii_chars(text) {
        TextEncoding::Iso8859_1
    } else {
        TextEncoding::UnicodeUtf16
    };
    if lyrics {
        FrameView::UnsyncLyrics(e, lang, d, text)
    } else {
        FrameView::Comment(e, lang, d, text)
    }
}

/// A language code: three ASCII characters.
pub open spec fn lang_code_ok(lang: Seq<char>) -> bool {
    lang.len() == 3 && vstd::utf8::is_ascii_chars(lang)
}

/// The outcome of adding lyrics (or a comment) with language `lang`, description `d` and text
/// `text`: the error, with the tag unchanged, or the new frame appended and the size
/// recomputed.
pub open spec fn lang_added(
    old: ID3TAG,
    new: ID3TAG,
    r: Result<(), TagError>,
    lyrics: bool,
    lang: Seq<char>,
    d: Seq<char>,
    text: Seq<char>,
) -> bool {
    let reused = exists|i: int| 0 <= i < old.frames@.len() && #[trigger] uses_lang_desc(old.frames@[i], lyrics, lang, d);
    let fits = old.total_spec() + 10 + encode_view(lang_view(lyrics, lang, d, text)).len() <= MAX_TAG_SIZE;
    &&& new.wf()
    &&& new.same_header(&old)
    &&& (r == Err::<(), TagError>(TagError::LangWrongSize)) <==> !lang_code_ok(lang)
    &&& (r == Err::<(), TagError>(TagError::ReusedLangDescription)) <==> (lang_code_ok(lang) && reused)
    &&& (r == Err::<(), TagError>(TagError::TagTooLarge)) <==> (lang_code_ok(lang) && !reused && !fits)
    &&& (r is Ok) <==> (lang_code_ok(lang) && !reused && fits)
    &&& r is Err ==> new.frames@ == old.frames@ && new.size == old.size
    &&& r is Ok ==> {
        &&& new.frames@.len() == old.frames@.len() + 1
        &&& new.frames@.subrange(0, old.frames@.len() as int) == old.frames@
        &&& new.frames@.last().frame_id == if lyrics { USLT } else { COMM }
        &&& new.frames@.last().value@ == lang_view(lyrics, lang, d, text)
    }
}

/// A frame of kind `kind` (lyrics or comment) has language `lang` and description `d`.
pub open spec fn uses_lang_desc(f: ID3FRAME, lyrics: bool, lang: Seq<char>, d: Seq<char>) -> bool {
    match f.value {
        FrameValue::UnsyncLyrics(c) => lyrics && c.language@ == lang && c.content_description@ == d,
        FrameValue::Comment(c) => !lyrics && c.language@ == lang && c.content_description@ == d,
        _ => false,
    }
}

impl CommentFrame {
    /// A comment or lyrics payload: Latin-1 when the description and the text are ASCII,
    /// else UTF-16.
    pub fn new(lang: String, description: String, text: String) -> (r: CommentFrame)
        ensures
            r.language@ == lang@,
            r.content_description@ == description@,
            r.text@ == text@,
            r.text_encoding == if vstd::utf8::is_ascii_chars(description@) && vstd::utf8::is_ascii_chars(text@) {
                TextEncoding::Iso8859_1
            } else {
                TextEncoding::UnicodeUtf16
            },
    {
        let text_encoding = if description.as_str().is_ascii() && text.as_str().is_ascii() {
            TextEncoding::Iso8859_1
        } else {
            TextEncoding::UnicodeUtf16
        };
        CommentFrame { text_encoding, language: lang, content_description: description, text }
    }
}

impl AttachedPictureFrame {
    /// A picture payload: Latin-1 when the description is ASCII, else UTF-16; the type
    /// defaults to "other" and the description to empty.
    pub fn new(
        image_format: &PictureFormat,
        picture_data: &Vec<u8>,
        picture_type: Option<PictureType>,
        description: Option<String>,
    ) -> (r: AttachedPictureFrame)
        ensures
            r.mime_type@ == image_format.mime_spec(),
            r.picture_data@ == picture_data@,
            r.picture_type == match picture_type {
                Some(t) => t,
                None => PictureType::Other,
            },
            r.description@ == match description {
                Some(d) => d@,
                None => Seq::<char>::empty(),
            },
            r.text_encoding == if vstd::utf8::is_ascii_chars(r.description@) {
                TextEncoding::Iso8859_1
            } else {
                TextEncoding::UnicodeUtf16
            },
    {
        let description = match description {
            Some(d) => d,
            None => String::new(),
        };
        let text_encoding = if description.as_str().is_ascii() {
            TextEncoding::Iso8859_1
        } else {
            TextEncoding::UnicodeUtf16
        };
        let picture_type = match picture_type {
            Some(t) => t,
            None => PictureType::Other,
        };
        AttachedPictureFrame {
            text_encoding,
            mime_type: image_format.to_mime_string(),
            picture_type,
            description,
            picture_data: picture_data.clone(),
        }
    }
}

impl ID3TAG {
    /// Appends a frame of identifier `id` holding `value`, and recomputes the size; `false`,
    /// with the tag unchanged, when the tag would outgrow the largest declarable size.
    pub fn push_frame(&mut self, id: u32, value: FrameValue) -> (r: bool)
        requires
            old(self).wf(),
        ensures
            final(self).wf(),
            final(self).same_header(old(self)),
            r ==> final(self).frames@.len() == old(self).frames@.len() + 1 && final(self).frames@.subrange(
                0,
                old(self).frames@.len() as int,
            ) == old(self).frames@ && final(self).frames@.last().frame_id == id && final(self).frames@.last().value@
                == value@ && final(self).frames@.last().flags1 == 0 && final(self).frames@.last().flags2 == 0,
            r <==> old(self).total_spec() + 10 + encode_view(value@).len() <= MAX_TAG_SIZE,
            !r ==> final(self).frames@ == old(self).frames@ && final(self).size == old(self).size,
    {
        let ghost v = value@;
        let f = match ID3FRAME::from_value(id, value) {
            Some(f) => f,
            None => {
                return false;
            },
        };
        if self.size > MAX_TAG_SIZE - f.size {
            return false;
        }
        let ghost old_frames = self.frames@;
        let ns = f.size;
        self.frames.push(f);
        proof {
            lemma_frames_total_push(old_frames, self.frames@.last());
            assert(self.frames@.drop_last() =~= old_frames);
            assert(self.frames@.subrange(0, old_frames.len() as int) =~= old_frames);
        }
        self.size = self.size + ns;
        true
    }

    /// Whether a lyrics (or comment) frame with this language and description exists.
    fn has_lang_desc(&self, lyrics: bool, lang: &String, description: &String) -> (r: bool)
        ensures
            r == exists|i: int|
                0 <= i < self.frames@.len() && #[trigger] uses_lang_desc(
                    self.frames@[i],
                    lyrics,
                    lang@,
                    description@,
                ),
    {
        let mut i: usize = 0;
        while i < self.frames.len()
            invariant
                i <= self.frames@.len(),
                forall|j: int|
                    0 <= j < i ==> !#[trigger] uses_lang_desc(self.frames@[j], lyrics, lang@, description@),
            decreases self.frames@.len() - i,
        {
            let hit = match &self.frames[i].value {
                FrameValue::UnsyncLyrics(c) => lyrics && c.language == *lang && c.content_description
                    == *description,
                FrameValue::Comment(c) => !lyrics && c.language == *lang && c.content_description
                    == *description,
                _ => false,
            };
            if hit {
                assert(uses_lang_desc(self.frames@[i as int], lyrics, lang@, description@));
                return true;
            }
            i = i + 1;
        }
        false
    }

    /// Adds unsynchronised lyrics (USLT), as `lang_added` describes: fails with `LangWrongSize`
    /// when `lang` is not three ASCII characters, with `ReusedLangDescription` when lyrics with
    /// this language and description exist, and with `TagTooLarge` when the tag would outgrow
    /// its largest size.
    pub fn add_lyrics(&mut self, lang: &str, description: Option<String>, text: String) -> (r: Result<(), TagError>)
        requires
            old(self).wf(),
        ensures
            lang_added(*old(self), *final(self), r, true, lang@, desc_or_empty(description), text@),
    {
        self.add_lang_frame(true, lang, description, text)
    }

    /// Adds a comment (COMM), as `lang_added` describes: fails with `LangWrongSize` when `lang`
    /// is not three ASCII characters, with `ReusedLangDescription` when a comment with this
    /// language and description exists, and with `TagTooLarge` when the tag would outgrow its
    /// largest size.
    pub fn add_comment(&mut self, lang: &str, description: Option<String>, text: String) -> (r: Result<(), TagError>)
        requires
            old(self).wf(),
        ensures
            lang_added(*old(self), *final(self), r, false, lang@, desc_or_empty(description), text@),
    {
        self.add_lang_frame(false, lang, description, text)
    }

    fn add_lang_frame(&mut self, lyrics: bool, lang: &str, description: Option<String>, text: String) -> (r: Result<(), TagError>)
        requires
            old(self).wf(),
        ensures
            lang_added(*old(self), *final(self), r, lyrics, lang@, desc_or_empty(description), text@),
    {
        let ghost dv = desc_or_empty(description);
        let description = match description {
            Some(d) => d,
            None => String::new(),
        };
        assert(description@ == dv);
        proof {
            assert(lang.spec_bytes() == vstd::utf8::encode_utf8(lang@));
            if vstd::utf8::is_ascii_chars(lang@) {
                vstd::utf8::is_ascii_chars_encode_utf8(lang@);
                assert(vstd::utf8::encode_utf8(lang@).len() == lang@.len());
            }
        }
        if lang.as_bytes().len() != 3 || !lang.is_ascii() {
            return Err(TagError::LangWrongSize);
        }
        let lang = lang.to_owned();
        if self.has_lang_desc(lyrics, &lang, &description) {
            return Err(TagError::ReusedLangDescription);
        }
        let c = CommentFrame::new(lang, description, text);
        let value = if lyrics { FrameValue::UnsyncLyrics(c) } else { FrameValue::Comment(c) };
        assert(value@ == lang_view(lyrics, lang@, dv, text@));
        if self.push_frame(if lyrics { USLT } else { COMM }, value) {
            Ok(())
        } else {
            Err(TagError::TagTooLarge)
        }
    }

    /// Adds an attached picture (APIC); `false`, with the tag unchanged, when the tag would
    /// outgrow its largest size.
    pub fn add_picture(
        &mut self,
        image_format: PictureFormat,
        picture_data: &Vec<u8>,
        picture_type: Option<PictureType>,
        description: Option<String>,
    ) -> (r: bool)
        requires
            old(self).wf(),
        ensures
            final(self).wf(),
            final(self).same_header(old(self)),
            r ==> final(self).frames@.len() == old(self).frames@.len() + 1 && final(self).frames@.subrange(
                0,
                old(self).frames@.len() as int,
            ) == old(self).frames@ && final(self).frames@.last().frame_id == APIC
                && (final(self).frames@.last().value matches FrameValue::AttachedPicture(p)
                && p.picture_data@ == picture_data@),
            !r ==> final(self).frames@ == old(self).frames@,
            r <==> old(self).total_spec() + 10 + encode_view(
                picture_view(image_format.mime_spec(), picture_type, desc_or_empty(description), picture_data@),
            ).len() <= MAX_TAG_SIZE,
    {
        let ghost dv = desc_or_empty(description);
        let p = AttachedPictureFrame::new(&image_format, picture_data, picture_type, description);
        let v = FrameValue::AttachedPicture(p);
        assert(v@ == picture_view(image_format.mime_spec(), picture_type, dv, picture_data@));
        self.push_frame(APIC, v)
    }

    /// The lyrics of the unsynchronised-lyrics frames, in order.
    pub fn lyrics(&self) -> (r: Vec<String>)
        ensures
            r@.map_values(|s: String| s@) == lyrics_of(self.frames@),
    {
        let mut out: Vec<String> = Vec::new();
        let mut i: usize = 0;
        while i < self.frames.len()
            invariant
                i <= self.frames@.len(),
                out@.map_values(|s: String| s@) == lyrics_of(self.frames@.subrange(0, i as int)),
            decreases self.frames@.len() - i,
        {
            proof {
                assert(self.frames@.subrange(0, i + 1).drop_last() =~= self.frames@.subrange(0, i as int));
            }
            if let FrameValue::UnsyncLyrics(c) = &self.frames[i].value {
                out.push(c.text.clone());
            }
            i = i + 1;
            assert(out@.map_values(|s: String| s@) =~= lyrics_of(self.frames@.subrange(0, i as int)));
        }
        assert(self.frames@.subrange(0, self.frames@.len() as int) =~= self.frames@);
        out
    }

    /// The (description, text) pairs of the comments, in order.
    pub fn comments(&self) -> (r: Vec<(String, String)>)
        ensures
            r@.map_values(|p: (String, String)| (p.0@, p.1@)) == comments_of(self.frames@),
    {
        let mut out: Vec<(String, String)> = Vec::new();
        let mut i: usize = 0;
        while i < self.frames.len()
            invariant
                i <= self.frames@.len(),
                out@.map_values(|p: (String, String)| (p.0@, p.1@)) == comments_of(self.frames@.subrange(0, i as int)),
            decreases self.frames@.len() - i,
        {
            proof {
                assert(self.frames@.subrange(0, i + 1).drop_last() =~= self.frames@.subrange(0, i as int));
            }
            if let FrameValue::Comment(c) = &self.frames[i].value {
                out.push((c.content_description.clone(), c.text.clone()));
            }
            i = i + 1;
            assert(out@.map_values(|p: (String, String)| (p.0@, p.1@)) =~= comments_of(self.frames@.subrange(0, i as int)));
        }
        assert(self.frames@.subrange(0, self.frames@.len() as int) =~= self.frames@);
        out
    }

    /// The data of the attached pictures, in order.
    pub fn attached_pictures(&self) -> (r: Vec<Vec<u8>>)
        ensures
            r@.map_values(|v: Vec<u8>| v@) == pictures_of(self.frames@),
    {
        let mut out: Vec<Vec<u8>> = Vec::new();
        let mut i: usize = 0;
        while i < self.frames.len()
            invariant
                i <= self.frames@.len(),
                out@.map_values(|v: Vec<u8>| v@) == pictures_of(self.frames@.subrange(0, i as int)),
            decreases self.frames@.len() - i,
        {
            proof {
                assert(self.frames@.subrange(0, i + 1).drop_last() =~= self.frames@.subrange(0, i as int));
            }
            if let FrameValue::AttachedPicture(p) = &self.frames[i].value {
                out.push(p.picture_data.clone());
            }
            i = i + 1;
            assert(out@.map_values(|v: Vec<u8>| v@) =~= pictures_of(self.frames@.subrange(0, i as int)));
        }
        assert(self.frames@.subrange(0, self.frames@.len() as int) =~= self.frames@);
        out
    }
}

} // verus!
