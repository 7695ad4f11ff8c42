//! One ID3v2.3 frame: a ten-byte header (identifier, payload size, two flag bytes) and its payload.
use vstd::prelude::*;
use crate::bytes::{be_seq, read_be, write_be, lemma_be_seq_len, lemma_be_val_seq, lemma_be_seq_val, lemma_be_val_bound, pow256};
use crate::id3_frame_value::{FrameValue, FrameView, encode_view, wf_view, fits, decode_frame_value, TextFrame, CommentFrame, AttachedPictureFrame};

verus! {

/// The largest size an ID3 tag can declare: its size field holds 28 bits.
pub const MAX_TAG_SIZE: u32 = 0x0fff_ffff;

/// A frame identifier byte: an upper-case letter or a digit.
pub open spec fn id_char(c: u8) -> bool {
    (0x41 <= c <= 0x5a) || (0x30 <= c <= 0x39)
}

/// A well-formed frame identifier: four upper-case letters or digits.
pub open spec fn valid_id(id: u32) -> bool {
    let s = be_seq(id as nat, 4);
    id_char(s[0]) && id_char(s[1]) && id_char(s[2]) && id_char(s[3])
}

/// A frame of an ID3 tag.
pub struct ID3FRAME {
    pub frame_id: u32,
    /// The size of the whole frame, header included.
    pub size: u32,
    pub flags1: u8,
    pub flags2: u8,
    pub value: FrameValue,
}

/// The bytes of a frame with identifier `id`, flag bytes `f1`, `f2` and payload `v`.
pub open spec fn frame_bytes(id: u32, f1: u8, f2: u8, v: FrameView) -> Seq<u8> {
    be_seq(id as nat, 4) + be_seq(encode_view(v).len(), 4) + seq![f1, f2] + encode_view(v)
}

impl ID3FRAME {
    /// The size field agrees with the payload, and the frame fits in a tag.
    pub open spec fn wf(&self) -> bool {
        &&& self.size as nat == 10 + encode_view(self.value@).len()
        &&& self.size <= MAX_TAG_SIZE
    }

    pub open spec fn bytes(&self) -> Seq<u8> {
        frame_bytes(self.frame_id, self.flags1, self.flags2, self.value@)
    }

    /// A frame holding `value`, with no flags set; `None` when the payload is too large for a tag.
    pub fn from_value(frame_id: u32, value: FrameValue) -> (r: Option<ID3FRAME>)
        ensures
            10 + encode_view(value@).len() <= MAX_TAG_SIZE ==> (r matches Some(f) && f.wf()
                && f.frame_id == frame_id && f.value@ == value@ && f.flags1 == 0 && f.flags2 == 0),
            10 + encode_view(value@).len() > MAX_TAG_SIZE ==> r is None,
    {
        let raw = value.raw_size();
        if raw > (MAX_TAG_SIZE - 10) as usize {
            return None;
        }
        Some(ID3FRAME { frame_id, size: raw as u32 + 10, flags1: 0, flags2: 0, value })
    }

    /// The bytes of this frame: header, then payload.
    pub fn as_bytes(&self) -> (r: Vec<u8>)
        requires
            self.wf(),
        ensures
            r@ == self.bytes(),
    {
        let mut out: Vec<u8> = Vec::new();
        let payload = self.value.raw_bytes();
        write_be(&mut out, self.frame_id as u64, 4);
        write_be(&mut out, (self.size - 10) as u64, 4);
        out.push(self.flags1);
        out.push(self.flags2);
        let mut i: usize = 0;
        let ghost head = out@;
        while i < payload.len()
            invariant
                i <= payload@.len(),
                out@ == head + payload@.subrange(0, i as int),
            decreases payload@.len() - i,
        {
            out.push(payload[i]);
            i = i + 1;
            assert(out@ =~= head + payload@.subrange(0, i as int));
        }
        assert(payload@.subrange(0, payload@.len() as int) =~= payload@);
        assert(out@ =~= self.bytes());
        out
    }

    /// The size of the whole frame, header included.
    pub fn total_size(&self) -> (r: u32)
        ensures
            r == self.size,
    {
        self.size
    }

    /// Sets the size field from the current payload.
    pub fn recalcule_size(&mut self)
        requires
            10 + encode_view(old(self).value@).len() <= MAX_TAG_SIZE,
        ensures
            final(self).wf(),
            final(self).frame_id == old(self).frame_id,
            final(self).value == old(self).value,
            final(self).flags1 == old(self).flags1,
            final(self).flags2 == old(self).flags2,
    {
        let raw = self.value.raw_size();
        self.size = raw as u32 + 10;
    }

    pub fn get_frame_id(&self) -> (r: u32)
        ensures
            r == self.frame_id,
    {
        self.frame_id
    }

    pub fn get_frame_value(&self) -> (r: &FrameValue)
        ensures
            r == &self.value,
    {
        &self.value
    }

    /// The text frame this frame holds, if it is one.
    pub fn as_text_frame(&self) -> (r: Option<&TextFrame>)
        ensures
            r matches Some(t) ==> self.value == FrameValue::Text(*t),
            self.value is Text ==> r is Some,
    {
        match &self.value {
            FrameValue::Text(t) => Some(t),
            _ => None,
        }
    }

    /// The comment this frame holds, if it is one.
    pub fn as_comment_frame(&self) -> (r: Option<&CommentFrame>)
        ensures
            r matches Some(c) ==> self.value == FrameValue::Comment(*c),
            self.value is Comment ==> r is Some,
    {
        match &self.value {
            FrameValue::Comment(c) => Some(c),
            _ => None,
        }
    }

    /// The unsynchronised lyrics this frame holds, if it holds some.
    pub fn as_unsynchroned_lyrics_frame(&self) -> (r: Option<&CommentFrame>)
        ensures
            r matches Some(c) ==> self.value == FrameValue::UnsyncLyrics(*c),
            self.value is UnsyncLyrics ==> r is Some,
    {
        match &self.value {
            FrameValue::UnsyncLyrics(c) => Some(c),
            _ => None,
        }
    }

    /// The attached picture this frame holds, if it is one.
    pub fn as_attached_picture_frame(&self) -> (r: Option<&AttachedPictureFrame>)
        ensures
            r matches Some(p) ==> self.value == FrameValue::AttachedPicture(*p),
            self.value is AttachedPicture ==> r is Some,
    {
        match &self.value {
            FrameValue::AttachedPicture(p) => Some(p),
            _ => None,
        }
    }
}

fn is_id_char(c: u8) -> (r: bool)
    ensures
        r == id_char(c),
{
    (0x41 <= c && c <= 0x5a) || (0x30 <= c && c <= 0x39)
}

proof fn lemma_pow4()
    ensures
        pow256(4) == 0x1_0000_0000,
{
    reveal_with_fuel(pow256, 5);
}

/// Decodes one frame at `pos`, within `b[..end]`: the frame and the offset just past it.
/// `None` when fewer than ten bytes remain, the identifier is not well formed, the payload
/// runs past `end`, or the payload does not decode.
pub fn decode_frame(b: &[u8], pos: usize, end: usize) -> (r: Option<(ID3FRAME, usize)>)
    requires
        pos <= end <= b@.len(),
        end <= MAX_TAG_SIZE,
    ensures
        r matches Some((f, p)) ==> {
            &&& pos < p <= end
            &&& f.wf()
            &&& valid_id(f.frame_id)
            &&& wf_view(f.value@)
            &&& fits(f.frame_id, f.value@)
            &&& b@.subrange(pos as int, p as int) == f.bytes()
        },
        forall|id: u32, f1: u8, f2: u8, w: FrameView|
            valid_id(id) && wf_view(w) && fits(id, w) && pos + frame_bytes(id, f1, f2, w).len() <= end
                && b@.subrange(pos as int, pos + frame_bytes(id, f1, f2, w).len()) == #[trigger] frame_bytes(
                id,
                f1,
                f2,
                w,
            ) ==> (r matches Some((f, p)) && f.frame_id == id && f.flags1 == f1 && f.flags2 == f2
                && f.value@ == w && p == pos + frame_bytes(id, f1, f2, w).len()),
{
    proof {
        lemma_pow4();
    }
    if end - pos < 10 {
        proof {
            assert forall|id: u32, f1: u8, f2: u8, w: FrameView|
                valid_id(id) && wf_view(w) && fits(id, w) && pos + frame_bytes(id, f1, f2, w).len() <= end
                    && b@.subrange(pos as int, pos + frame_bytes(id, f1, f2, w).len()) == #[trigger] frame_bytes(
                    id,
                    f1,
                    f2,
                    w,
                ) implies false by {
                lemma_be_seq_len(id as nat, 4);
                lemma_be_seq_len(encode_view(w).len(), 4);
            }
        }
        return None;
    }
    let id = read_be(b, pos, 4).unwrap() as u32;
    let size = read_be(b, pos + 4, 4).unwrap();
    let f1 = b[pos + 8];
    let f2 = b[pos + 9];
    let ghost idb = b@.subrange(pos as int, pos + 4);
    let ghost szb = b@.subrange(pos + 4, pos + 8);
    proof {
        lemma_be_val_bound(idb);
        lemma_be_val_bound(szb);
        lemma_be_seq_val(idb);
        lemma_be_seq_val(szb);
    }
    let ok_id = is_id_char(b[pos]) && is_id_char(b[pos + 1]) && is_id_char(b[pos + 2]) && is_id_char(
        b[pos + 3],
    );
    let mut value: Option<FrameValue> = None;
    if ok_id && size <= (end - pos - 10) as u64 {
        value = decode_frame_value(b, pos + 10, pos + 10 + size as usize, id);
    }
    proof {
        assert forall|id2: u32, g1: u8, g2: u8, w: FrameView|
            valid_id(id2) && wf_view(w) && fits(id2, w) && pos + frame_bytes(id2, g1, g2, w).len() <= end
                && b@.subrange(pos as int, pos + frame_bytes(id2, g1, g2, w).len()) == #[trigger] frame_bytes(
                id2,
                g1,
                g2,
                w,
            ) implies (ok_id && size <= (end - pos - 10) && id == id2 && f1 == g1 && f2 == g2
                && size == encode_view(w).len() && (value matches Some(v) && v@ == w)) by {
            let ib = be_seq(id2 as nat, 4);
            let sb = be_seq(encode_view(w).len(), 4);
            let fl = seq![g1, g2];
            let pl = encode_view(w);
            lemma_be_seq_len(id2 as nat, 4);
            lemma_be_seq_len(encode_view(w).len(), 4);
            let whole = frame_bytes(id2, g1, g2, w);
            assert(whole =~= ib + sb + fl + pl);
            let q = pos + whole.len();
            assert(b@.subrange(pos as int, pos + 4) =~= whole.subrange(0, 4));
            assert(whole.subrange(0, 4) =~= ib);
            assert(b@.subrange(pos + 4, pos + 8) =~= whole.subrange(4, 8));
            assert(whole.subrange(4, 8) =~= sb);
            assert(b@[pos + 8] == whole[8]);
            assert(b@[pos + 9] == whole[9]);
            lemma_be_val_seq(id2 as nat, 4);
            assert(encode_view(w).len() < pow256(4));
            lemma_be_val_seq(encode_view(w).len(), 4);
            assert(b@[pos as int] == ib[0]);
            assert(b@[pos + 1] == ib[1]);
            assert(b@[pos + 2] == ib[2]);
            assert(b@[pos + 3] == ib[3]);
            assert(b@.subrange(pos + 10, q) =~= whole.subrange(10, whole.len() as int));
            assert(whole.subrange(10, whole.len() as int) =~= pl);
        }
    }
    match value {
        Some(v) => {
            let p = pos + 10 + size as usize;
            proof {
                assert(valid_id(id)) by {
                    assert(be_seq(id as nat, 4) == idb);
                }
                assert(b@.subrange(pos as int, p as int) =~= be_seq(id as nat, 4) + be_seq(
                    encode_view(v@).len(),
                    4,
                ) + seq![f1, f2] + encode_view(v@));
            }
            Some((ID3FRAME { frame_id: id, size: size as u32 + 10, flags1: f1, flags2: f2, value: v }, p))
        },
        None => None,
    }
}

} // verus!
