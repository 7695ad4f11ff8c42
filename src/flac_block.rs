//! One FLAC metadata block: a header byte (last-block flag and type), a 24-bit length and
//! the payload.
use vstd::prelude::*;
use crate::bytes::{be_seq, be_val, read_be, write_be, lemma_be_val_bound, pow256};
use crate::flac_block_data::{FlacMetadataBlockType, FlacMetadataBlockData, PaddingBlock, PictureBlock, VorbisCommentBlock, data_bytes, data_ok, data_readable, same_data, lemma_same_data_bytes, vorbis_payload};
use crate::text::append_slice;
use crate::vorbis::VorbisVector;
use crate::tag_error::TagError;

verus! {

/// The largest payload a block can have: its length field holds 24 bits.
pub const MAX_BLOCK_LEN: usize = 0xff_ffff;

/// A metadata block.
pub struct FlacMetadataBlock {
    pub is_last_block: bool,
    pub block_type: FlacMetadataBlockType,
    /// The payload length, as the header states it.
    pub metadata_len: u32,
    pub data: FlacMetadataBlockData,
}

/// The header byte of a block.
pub open spec fn header_byte(last: bool, t: FlacMetadataBlockType) -> u8 {
    ((if last { 0x80u8 } else { 0u8 }) + t.raw()) as u8
}

impl FlacMetadataBlock {
    /// The type agrees with the payload, and the length field with the payload's length.
    pub open spec fn wf(&self) -> bool {
        &&& self.block_type == self.data.block_type_spec()
        &&& data_ok(self.data)
        &&& self.metadata_len as nat == data_bytes(self.data).len()
        &&& self.metadata_len <= MAX_BLOCK_LEN
    }

    pub open spec fn bytes(&self) -> Seq<u8> {
        seq![header_byte(self.is_last_block, self.block_type)] + be_seq(self.metadata_len as nat, 3)
            + data_bytes(self.data)
    }

    /// A block holding `data`, not marked last; `None` when the payload is too long for a block.
    pub fn from_data(data: FlacMetadataBlockData) -> (r: Option<FlacMetadataBlock>)
        requires
            data_ok(data),
        ensures
            data_bytes(data).len() <= MAX_BLOCK_LEN ==> (r matches Some(b) && b.wf() && !b.is_last_block
                && b.data == data),
            data_bytes(data).len() > MAX_BLOCK_LEN ==> r is None,
    {
        let n = data.raw_size();
        if n > MAX_BLOCK_LEN {
            return None;
        }
        let t = data.block_type();
        Some(FlacMetadataBlock { is_last_block: false, block_type: t, metadata_len: n as u32, data })
    }

    /// An empty block of type PADDING or VORBISCOMMENT, not marked last.
    pub fn default_from(block_type: FlacMetadataBlockType) -> (r: FlacMetadataBlock)
        requires
            block_type == FlacMetadataBlockType::PADDING || block_type
                == FlacMetadataBlockType::VORBISCOMMENT,
        ensures
            r.wf(),
            !r.is_last_block,
            r.block_type == block_type,
            block_type == FlacMetadataBlockType::VORBISCOMMENT ==> (r.data matches FlacMetadataBlockData::VORBISCOMMENT(v)
                && v.comments@.len() == 0 && v.vendor_name@.len() == 0),
    {
        let data = if block_type == FlacMetadataBlockType::PADDING {
            FlacMetadataBlockData::PADDING(PaddingBlock { nb_bytes: 0 })
        } else {
            FlacMetadataBlockData::VORBISCOMMENT(
                VorbisCommentBlock { vendor_name: String::new(), comments: VorbisVector::new() },
            )
        };
        proof {
            assert(crate::flac_block_data::pair_count(Seq::empty()) == 0);
            assert(crate::flac_block_data::comments_bytes(Seq::empty()) == Seq::<u8>::empty());
            reveal_with_fuel(crate::bytes::le_seq, 5);
            reveal_with_fuel(crate::bytes::pow256, 5);
        }
        let n = data.raw_size();
        FlacMetadataBlock { is_last_block: false, block_type, metadata_len: n as u32, data }
    }

    /// A picture block, not marked last; `None` when the picture is too large for a block.
    pub fn new_picture_block(picture_block: PictureBlock) -> (r: Option<FlacMetadataBlock>)
        requires
            data_ok(FlacMetadataBlockData::PICTURE(picture_block)),
        ensures
            r matches Some(b) ==> b.wf() && !b.is_last_block && b.data == FlacMetadataBlockData::PICTURE(
                picture_block,
            ),
            data_bytes(FlacMetadataBlockData::PICTURE(picture_block)).len() <= MAX_BLOCK_LEN ==> r is Some,
    {
        Self::from_data(FlacMetadataBlockData::PICTURE(picture_block))
    }

    /// Sets the length field from the current payload.
    pub fn update_size(&mut self)
        requires
            data_ok(old(self).data),
            data_bytes(old(self).data).len() <= MAX_BLOCK_LEN,
            old(self).block_type == old(self).data.block_type_spec(),
        ensures
            final(self).wf(),
            final(self).is_last_block == old(self).is_last_block,
            final(self).data == old(self).data,
    {
        self.metadata_len = self.data.raw_size() as u32;
    }

    pub fn block_type(&self) -> (r: FlacMetadataBlockType)
        ensures
            r == self.block_type,
    {
        self.block_type
    }

    /// Sets or clears the last-block flag.
    pub fn set_last(&mut self, is_last: bool)
        ensures
            final(self).is_last_block == is_last,
            final(self).block_type == old(self).block_type,
            final(self).metadata_len == old(self).metadata_len,
            final(self).data == old(self).data,
    {
        self.is_last_block = is_last;
    }

    /// The Vorbis comments of this block, if it holds them.
    pub fn as_vorbis_comments_block(&self) -> (r: Option<&VorbisCommentBlock>)
        ensures
            r matches Some(v) ==> self.data == FlacMetadataBlockData::VORBISCOMMENT(*v),
            self.data is VORBISCOMMENT ==> r is Some,
    {
        self.data.as_vorbis_comments_block()
    }

    /// The picture of this block, if it holds one.
    pub fn as_picture_block(&self) -> (r: Option<&PictureBlock>)
        ensures
            r matches Some(p) ==> self.data == FlacMetadataBlockData::PICTURE(*p),
            self.data is PICTURE ==> r is Some,
    {
        self.data.as_picture_block()
    }

    /// The bytes of this block: header, length, payload.
    pub fn as_bytes(&self) -> (r: Vec<u8>)
        requires
            self.wf(),
        ensures
            r@ == self.bytes(),
    {
        let mut out: Vec<u8> = Vec::new();
        let h: u8 = (if self.is_last_block { 0x80u8 } else { 0u8 }) + self.block_type.raw_value();
        out.push(h);
        write_be(&mut out, self.metadata_len as u64, 3);
        let d = self.data.raw_bytes();
        append_slice(&mut out, d.as_slice());
        assert(out@ =~= self.bytes());
        out
    }
}

/// Two blocks with the same flag, type and content.
pub open spec fn same_block(a: FlacMetadataBlock, c: FlacMetadataBlock) -> bool {
    a.is_last_block == c.is_last_block && a.block_type == c.block_type && same_data(a.data, c.data)
}

/// A block that reads back as itself.
pub open spec fn block_readable(blk: FlacMetadataBlock) -> bool {
    blk.wf() && data_readable(blk.data)
}

/// The bytes of `blk` stand at `pos` of `b`, ending at or before `end`.
pub open spec fn block_at(b: Seq<u8>, pos: int, end: int, blk: FlacMetadataBlock) -> bool {
    pos + blk.bytes().len() <= end && b.subrange(pos, pos + blk.bytes().len()) == blk.bytes()
}

proof fn lemma_type_raw_inj(a: FlacMetadataBlockType, c: FlacMetadataBlockType)
    requires
        a.raw() == c.raw(),
    ensures
        a == c,
{
}

/// The fields of a written block stand at their offsets.
pub proof fn lemma_block_layout(b: Seq<u8>, pos: int, end: int, blk: FlacMetadataBlock)
    requires
        0 <= pos <= end <= b.len(),
        blk.wf(),
        block_at(b, pos, end, blk),
    ensures
        pos + 4 + blk.metadata_len <= end,
        blk.bytes().len() == 4 + blk.metadata_len,
        b[pos] % 128 == blk.block_type.raw(),
        (b[pos] >= 128) == blk.is_last_block,
        b.subrange(pos + 1, pos + 4) == be_seq(blk.metadata_len as nat, 3),
        b.subrange(pos + 4, pos + 4 + blk.metadata_len) == data_bytes(blk.data),
{
    crate::bytes::lemma_be_seq_len(blk.metadata_len as nat, 3);
    let h = seq![header_byte(blk.is_last_block, blk.block_type)];
    let l = be_seq(blk.metadata_len as nat, 3);
    let d = data_bytes(blk.data);
    let e = pos + blk.bytes().len();
    let sub = b.subrange(pos, e);
    assert(sub[0] == b[pos]);
    assert forall|t: int| 0 <= t < 3 implies b[pos + 1 + t] == l[t] by {
        assert(sub[1 + t] == b[pos + 1 + t]);
    }
    assert(b.subrange(pos + 1, pos + 4) =~= l);
    assert forall|t: int| 0 <= t < d.len() implies b[pos + 4 + t] == d[t] by {
        assert(sub[4 + t] == b[pos + 4 + t]);
    }
    assert(b.subrange(pos + 4, pos + 4 + blk.metadata_len) =~= d);
}

/// Decodes one block at `pos`: the block and the offset past it. `Err(UnknownBlockType)` when
/// the type code is not one of the seven; `Ok(None)` when the block runs past `end` or its
/// payload does not decode.
pub fn decode_block(b: &[u8], pos: usize, end: usize) -> (r: Result<Option<(FlacMetadataBlock, usize)>, TagError>)
    requires
        pos <= end <= b@.len(),
    ensures
        r is Err <==> (pos < end && b@[pos as int] % 128 > 6),
        r is Err ==> r->Err_0 == TagError::UnknownBlockType,
        r matches Ok(Some((blk, p))) ==> {
            &&& pos + 4 <= p <= end
            &&& blk.wf()
            &&& blk.is_last_block == (b@[pos as int] >= 128)
            &&& blk.block_type.raw() == b@[pos as int] % 128
            &&& p == pos + 4 + be_val(b@.subrange(pos + 1, pos + 4))
            &&& !(blk.data is VORBISCOMMENT || blk.data is PICTURE || blk.data is PADDING) ==> data_bytes(
                blk.data,
            ) == b@.subrange(pos + 4, p as int)
        },
        forall|blk: FlacMetadataBlock|
            block_readable(blk) && #[trigger] block_at(b@, pos as int, end as int, blk) ==> (r matches Ok(Some((b2, p)))
                && same_block(b2, blk) && p == pos + blk.bytes().len()),
{
    proof {
        assert forall|blk: FlacMetadataBlock|
            block_readable(blk) && #[trigger] block_at(b@, pos as int, end as int, blk) implies pos + 4 <= end
                && b@[pos as int] % 128 <= 6 by {
            lemma_block_layout(b@, pos as int, end as int, blk);
        }
    }
    if pos >= end {
        return Ok(None);
    }
    let h = b[pos];
    let t = match FlacMetadataBlockType::from_raw_value(h % 128) {
        Some(t) => t,
        None => {
            return Err(TagError::UnknownBlockType);
        },
    };
    if end - pos < 4 {
        return Ok(None);
    }
    let len = read_be(b, pos + 1, 3).unwrap() as usize;
    proof {
        lemma_be_val_bound(b@.subrange(pos + 1, pos + 4));
        reveal_with_fuel(pow256, 4);
    }
    proof {
        assert forall|blk: FlacMetadataBlock|
            block_readable(blk) && #[trigger] block_at(b@, pos as int, end as int, blk) implies len
                == blk.metadata_len && t == blk.block_type && (h >= 128) == blk.is_last_block && blk.bytes().len()
                == 4 + len && len <= end - pos - 4 && data_bytes(blk.data) == b@.subrange(
                pos + 4,
                pos + 4 + len,
            ) by {
            lemma_block_layout(b@, pos as int, end as int, blk);
            crate::bytes::lemma_be_val_seq(blk.metadata_len as nat, 3);
            lemma_type_raw_inj(t, blk.block_type);
        }
    }
    if len > end - pos - 4 {
        return Ok(None);
    }
    let data = match FlacMetadataBlockData::decode(b, pos + 4, pos + 4 + len, t) {
        Some(d) => d,
        None => {
            proof {
                assert forall|blk: FlacMetadataBlock|
                    block_readable(blk) && #[trigger] block_at(b@, pos as int, end as int, blk) implies false by {
                    if let FlacMetadataBlockData::VORBISCOMMENT(v) = blk.data {
                        assert(vorbis_payload(v.vendor_name@, v.comments@) == data_bytes(blk.data));
                    }
                }
            }
            return Ok(None);
        },
    };
    proof {
        assert forall|blk: FlacMetadataBlock|
            block_readable(blk) && #[trigger] block_at(b@, pos as int, end as int, blk) implies same_data(
                data,
                blk.data,
            ) by {
            if let FlacMetadataBlockData::VORBISCOMMENT(v) = blk.data {
                assert(vorbis_payload(v.vendor_name@, v.comments@) == data_bytes(blk.data));
            } else {
                assert(data_bytes(blk.data) == b@.subrange(pos + 4, pos + 4 + len));
            }
        }
    }
    let n = data.raw_size();
    proof {
        assert forall|blk: FlacMetadataBlock|
            block_readable(blk) && #[trigger] block_at(b@, pos as int, end as int, blk) implies n <= MAX_BLOCK_LEN by {
            lemma_same_data_bytes(data, blk.data);
        }
    }
    if n > MAX_BLOCK_LEN {
        return Ok(None);
    }
    let blk = FlacMetadataBlock { is_last_block: h >= 128, block_type: t, metadata_len: n as u32, data };
    Ok(Some((blk, pos + 4 + len)))
}

} // verus!
