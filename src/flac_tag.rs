//! The FLAC metadata chain: "fLaC", the STREAMINFO block, the other blocks, and the audio
//! frames that follow the block marked last.
use vstd::prelude::*;
use crate::flac_block::{FlacMetadataBlock, MAX_BLOCK_LEN, decode_block, same_block, block_readable, block_at, lemma_block_layout};
use crate::flac_block_data::same_data;
use crate::id3_frame_value::PictureType;
use crate::flac_block_data::{FlacMetadataBlockType, FlacMetadataBlockData, VorbisCommentBlock, PictureBlock, vorbis_payload, vorbis_ok, data_bytes};
use crate::vorbis::{VorbisVector, VorbisModel, set_spec, add_spec, get_spec, upper, key_differs};
use crate::text::append_slice;
use crate::tag_error::TagError;
use crate::format::{decimal_of, u16_to_string};
use vstd::string::*;

verus! {

/// The bytes of a list of blocks, one after the other.
pub open spec fn blocks_bytes(bs: Seq<FlacMetadataBlock>) -> Seq<u8>
    decreases bs.len(),
{
    if bs.len() == 0 {
        Seq::empty()
    } else {
        blocks_bytes(bs.drop_last()) + bs.last().bytes()
    }
}

/// Exactly the final block of the chain carries the last-block flag.
pub open spec fn last_flag_ok(chain: Seq<FlacMetadataBlock>) -> bool {
    forall|i: int| 0 <= i < chain.len() ==> (#[trigger] chain[i].is_last_block <==> i == chain.len() - 1)
}

/// The metadata of a FLAC file and its audio frames.
pub struct FlacTag {
    pub file_path: String,
    pub stream_info: FlacMetadataBlock,
    pub metadata_blocks: Vec<FlacMetadataBlock>,
    pub music_data: Vec<u8>,
}

/// A FLAC file: "fLaC", the chain of blocks, then the audio.
pub open spec fn flac_file(chain: Seq<FlacMetadataBlock>, rest: Seq<u8>) -> Seq<u8> {
    seq![0x66u8, 0x4cu8, 0x61u8, 0x43u8] + blocks_bytes(chain) + rest
}

/// A chain that reads back as itself: STREAMINFO first and only there, every block readable,
/// and the last-block flag on the final block alone.
pub open spec fn chain_readable(chain: Seq<FlacMetadataBlock>) -> bool {
    &&& chain.len() >= 1
    &&& chain[0].block_type == FlacMetadataBlockType::STREAMINFO
    &&& forall|i: int| 1 <= i < chain.len() ==> (#[trigger] chain[i]).block_type != FlacMetadataBlockType::STREAMINFO
    &&& forall|i: int| 0 <= i < chain.len() ==> block_readable(#[trigger] chain[i])
    &&& last_flag_ok(chain)
}

/// Two chains with the same blocks, one for one.
pub open spec fn same_chain(a: Seq<FlacMetadataBlock>, c: Seq<FlacMetadataBlock>) -> bool {
    a.len() == c.len() && forall|i: int| 0 <= i < a.len() ==> same_block(#[trigger] a[i], c[i])
}

proof fn lemma_blocks_prefix(bs: Seq<FlacMetadataBlock>, j: int)
    requires
        0 <= j <= bs.len(),
    ensures
        blocks_bytes(bs.take(j)).len() <= blocks_bytes(bs).len(),
        blocks_bytes(bs).subrange(0, blocks_bytes(bs.take(j)).len() as int) == blocks_bytes(bs.take(j)),
    decreases bs.len(),
{
    if j == bs.len() {
        assert(bs.take(j) =~= bs);
        assert(blocks_bytes(bs).subrange(0, blocks_bytes(bs).len() as int) =~= blocks_bytes(bs));
    } else {
        lemma_blocks_prefix(bs.drop_last(), j);
        assert(bs.drop_last().take(j) =~= bs.take(j));
        let n = blocks_bytes(bs.take(j)).len() as int;
        assert(blocks_bytes(bs).subrange(0, n) =~= blocks_bytes(bs.drop_last()).subrange(0, n));
    }
}

/// Block `k` of a chain stands right after the blocks before it.
proof fn lemma_chain_at(b: Seq<u8>, chain: Seq<FlacMetadataBlock>, rest: Seq<u8>, k: int)
    requires
        b == flac_file(chain, rest),
        0 <= k < chain.len(),
    ensures
        blocks_bytes(chain.take(k + 1)) == blocks_bytes(chain.take(k)) + chain[k].bytes(),
        block_at(b, 4 + blocks_bytes(chain.take(k)).len() as int, b.len() as int, chain[k]),
{
    assert(chain.take(k + 1).drop_last() =~= chain.take(k));
    lemma_blocks_prefix(chain, k + 1);
    let pre = blocks_bytes(chain.take(k));
    let cb = chain[k].bytes();
    let all = blocks_bytes(chain);
    let q = 4 + pre.len() as int;
    assert(all.subrange(0, (pre + cb).len() as int) == pre + cb);
    assert forall|t: int| 0 <= t < cb.len() implies b[q + t] == cb[t] by {
        assert(b[q + t] == all[pre.len() + t]);
        assert(all[pre.len() + t] == (pre + cb)[pre.len() + t]);
    }
    assert(b.subrange(q, q + cb.len() as int) =~= cb);
}

impl FlacTag {
    /// The whole chain: STREAMINFO, then the other blocks.
    pub open spec fn chain(&self) -> Seq<FlacMetadataBlock> {
        seq![self.stream_info] + self.metadata_blocks@
    }

    /// STREAMINFO first, every block well formed, and the last-block flag on the final block
    /// alone.
    pub open spec fn wf(&self) -> bool {
        &&& self.stream_info.block_type == FlacMetadataBlockType::STREAMINFO
        &&& self.stream_info.wf()
        &&& forall|i: int| 0 <= i < self.metadata_blocks@.len() ==> #[trigger] self.metadata_blocks@[i].wf()
        &&& forall|i: int|
            0 <= i < self.metadata_blocks@.len() ==> #[trigger] self.metadata_blocks@[i].block_type
                != FlacMetadataBlockType::STREAMINFO
        &&& last_flag_ok(self.chain())
    }

    /// The bytes of the file: "fLaC", the blocks, the audio.
    pub open spec fn bytes(&self) -> Seq<u8> {
        seq![0x66u8, 0x4cu8, 0x61u8, 0x43u8] + blocks_bytes(self.chain()) + self.music_data@
    }

    /// Reads the metadata chain at the start of `buffer`.
    ///
    /// Fails with `FlacTagNotFound` when the buffer does not start with "fLaC", with
    /// `UnknownBlockType` when a block type is not one of the seven, and with
    /// `TruncatedInput` when no STREAMINFO block can be read first. Blocks are read until one
    /// is marked last; a block that cannot be read ends the chain, and what follows is kept
    /// as audio data.
    pub fn from_bytes(buffer: &[u8]) -> (r: Result<FlacTag, TagError>)
        ensures
            r matches Ok(t) ==> t.wf() && buffer@.len() >= 4 && buffer@.subrange(0, 4) == seq![
                0x66u8,
                0x4cu8,
                0x61u8,
                0x43u8,
            ],
            r matches Ok(t) ==> t.music_data@.len() <= buffer@.len() && t.music_data@ == buffer@.subrange(
                buffer@.len() - t.music_data@.len(),
                buffer@.len() as int,
            ),
            r == Err::<FlacTag, TagError>(TagError::FlacTagNotFound) <==> !(buffer@.len() >= 4
                && buffer@.subrange(0, 4) == seq![0x66u8, 0x4cu8, 0x61u8, 0x43u8]),
            r is Err ==> (r->Err_0 == TagError::FlacTagNotFound || r->Err_0 == TagError::UnknownBlockType
                || r->Err_0 == TagError::TruncatedInput),
            forall|chain: Seq<FlacMetadataBlock>, rest: Seq<u8>|
                chain_readable(chain) && #[trigger] flac_file(chain, rest) == buffer@ ==> (r matches Ok(t) && same_chain(t.chain(), chain) && t.music_data@ == rest),
    {
        if buffer.len() < 4 || buffer[0] != 0x66 || buffer[1] != 0x4c || buffer[2] != 0x61 || buffer[3] != 0x43 {
            proof {
                if buffer@.len() >= 4 && buffer@.subrange(0, 4) == seq![0x66u8, 0x4cu8, 0x61u8, 0x43u8] {
                    assert(buffer@[0] == buffer@.subrange(0, 4)[0]);
                    assert(buffer@[1] == buffer@.subrange(0, 4)[1]);
                    assert(buffer@[2] == buffer@.subrange(0, 4)[2]);
                    assert(buffer@[3] == buffer@.subrange(0, 4)[3]);
                }
                assert forall|chain: Seq<FlacMetadataBlock>, rest: Seq<u8>| chain_readable(chain) && #[trigger] flac_file(chain, rest) == buffer@ implies false by {
                    assert(buffer@[0] == flac_file(chain, rest)[0]);
                    assert(buffer@[1] == flac_file(chain, rest)[1]);
                    assert(buffer@[2] == flac_file(chain, rest)[2]);
                    assert(buffer@[3] == flac_file(chain, rest)[3]);
                }
            }
            return Err(TagError::FlacTagNotFound);
        }
        assert(buffer@.subrange(0, 4) =~= seq![0x66u8, 0x4cu8, 0x61u8, 0x43u8]);
        let end = buffer.len();
        proof {
            assert forall|chain: Seq<FlacMetadataBlock>, rest: Seq<u8>| chain_readable(chain) && #[trigger] flac_file(chain, rest) == buffer@ implies block_at(
                buffer@,
                4,
                end as int,
                chain[0],
            ) by {
                lemma_chain_at(buffer@, chain, rest, 0);
                assert(blocks_bytes(chain.take(0)) =~= Seq::<u8>::empty());
                assert(block_readable(chain[0]));
            }
        }
        let (mut stream_info, mut pos) = match decode_block(buffer, 4, end) {
            Err(e) => {
                proof {
                    assert forall|chain: Seq<FlacMetadataBlock>, rest: Seq<u8>| chain_readable(chain) && #[trigger] flac_file(chain, rest) == buffer@ implies false by {
                        assert(block_readable(chain[0]));
                    }
                }
                return Err(e);
            },
            Ok(None) => {
                proof {
                    assert forall|chain: Seq<FlacMetadataBlock>, rest: Seq<u8>| chain_readable(chain) && #[trigger] flac_file(chain, rest) == buffer@ implies false by {
                        assert(block_readable(chain[0]));
                    }
                }
                return Err(TagError::TruncatedInput);
            },
            Ok(Some((b, p))) => (b, p),
        };
        proof {
            assert forall|chain: Seq<FlacMetadataBlock>, rest: Seq<u8>| chain_readable(chain) && #[trigger] flac_file(chain, rest) == buffer@ implies same_block(stream_info, chain[0])
                && pos == 4 + blocks_bytes(chain.take(1)).len() by {
                assert(block_readable(chain[0]));
                lemma_chain_at(buffer@, chain, rest, 0);
                assert(blocks_bytes(chain.take(0)) =~= Seq::<u8>::empty());
            }
        }
        if stream_info.block_type() != FlacMetadataBlockType::STREAMINFO {
            return Err(TagError::TruncatedInput);
        }
        let ghost si0 = stream_info;
        let mut last = stream_info.is_last_block;
        stream_info.set_last(false);
        let mut blocks: Vec<FlacMetadataBlock> = Vec::new();
        while !last && pos < end
            invariant
                pos <= end == buffer@.len(),
                buffer@.len() >= 4,
                buffer@.subrange(0, 4) == seq![0x66u8, 0x4cu8, 0x61u8, 0x43u8],
                forall|i: int| 0 <= i < blocks@.len() ==> #[trigger] blocks@[i].wf(),
                forall|i: int| 0 <= i < blocks@.len() ==> !(#[trigger] blocks@[i]).is_last_block,
                forall|i: int| 0 <= i < blocks@.len() ==> (#[trigger] blocks@[i]).block_type
                    != FlacMetadataBlockType::STREAMINFO,
                stream_info.block_type == si0.block_type && stream_info.data == si0.data,
                forall|chain: Seq<FlacMetadataBlock>, rest: Seq<u8>| chain_readable(chain) && #[trigger] flac_file(chain, rest) == buffer@ ==> {
                    &&& same_block(si0, chain[0])
                    &&& blocks@.len() + 1 <= chain.len()
                    &&& pos == 4 + blocks_bytes(chain.take(blocks@.len() as int + 1)).len()
                    &&& (last <==> blocks@.len() + 1 == chain.len())
                    &&& forall|i: int| 0 <= i < blocks@.len() ==> (#[trigger] blocks@[i]).block_type
                        == chain[i + 1].block_type && same_data(blocks@[i].data, chain[i + 1].data)
                },
            decreases end - pos + (if last { 0int } else { 1int }),
        {
            let ghost k = blocks@.len() + 1;
            proof {
                assert forall|chain: Seq<FlacMetadataBlock>, rest: Seq<u8>| chain_readable(chain) && #[trigger] flac_file(chain, rest) == buffer@ implies block_at(
                    buffer@,
                    pos as int,
                    end as int,
                    chain[k as int],
                ) && block_readable(chain[k as int]) by {
                    lemma_chain_at(buffer@, chain, rest, k as int);
                    assert(block_readable(chain[k as int]));
                }
            }
            match decode_block(buffer, pos, end) {
                Err(e) => {
                    return Err(e);
                },
                Ok(None) => {
                    last = true;
                },
                Ok(Some((mut b, p))) => {
                    if b.block_type() == FlacMetadataBlockType::STREAMINFO {
                        last = true;
                    } else {
                        last = b.is_last_block;
                        let ghost b0 = b;
                        b.set_last(false);
                        let ghost prev = blocks@;
                        blocks.push(b);
                        assert(blocks@ == prev.push(b));
                        proof {
                            assert forall|chain: Seq<FlacMetadataBlock>, rest: Seq<u8>| chain_readable(chain) && #[trigger] flac_file(chain, rest) == buffer@ implies {
                                &&& blocks@.len() + 1 <= chain.len()
                                &&& p == 4 + blocks_bytes(chain.take(blocks@.len() as int + 1)).len()
                                &&& (last <==> blocks@.len() + 1 == chain.len())
                                &&& forall|i: int| 0 <= i < blocks@.len() ==> (#[trigger] blocks@[i]).block_type
                                    == chain[i + 1].block_type && same_data(blocks@[i].data, chain[i + 1].data)
                            } by {
                                lemma_chain_at(buffer@, chain, rest, k as int);
                                assert(same_block(b0, chain[k as int]));
                                assert(chain[k as int].is_last_block <==> k == chain.len() - 1);
                                assert forall|i: int| 0 <= i < blocks@.len() implies (#[trigger] blocks@[i]).block_type
                                    == chain[i + 1].block_type && same_data(blocks@[i].data, chain[i + 1].data) by {
                                    if i < prev.len() {
                                        assert(blocks@[i] == prev[i]);
                                    }
                                }
                            }
                        }
                        pos = p;
                    }
                },
            }
            proof {
                assert forall|chain: Seq<FlacMetadataBlock>, rest: Seq<u8>| chain_readable(chain) && #[trigger] flac_file(chain, rest) == buffer@ implies (last ==> blocks@.len() + 1
                    == chain.len()) by {
                    assert(chain[k as int].block_type != FlacMetadataBlockType::STREAMINFO);
                }
            }
        }
        proof {
            assert forall|chain: Seq<FlacMetadataBlock>, rest: Seq<u8>| chain_readable(chain) && #[trigger] flac_file(chain, rest) == buffer@ implies last && pos == 4 + blocks_bytes(
                chain,
            ).len() by {
                if !last {
                    let k = blocks@.len() + 1;
                    lemma_chain_at(buffer@, chain, rest, k as int);
                    assert(block_readable(chain[k as int]));
                    lemma_block_layout(buffer@, pos as int, end as int, chain[k as int]);
                }
                assert(chain.take(chain.len() as int) =~= chain);
            }
        }
        let mut music_data: Vec<u8> = Vec::new();
        let mut k: usize = pos;
        while k < end
            invariant
                pos <= k <= end == buffer@.len(),
                music_data@ == buffer@.subrange(pos as int, k as int),
            decreases end - k,
        {
            music_data.push(buffer[k]);
            k = k + 1;
            assert(music_data@ =~= buffer@.subrange(pos as int, k as int));
        }
        let n = blocks.len();
        let ghost before = blocks@;
        if n == 0 {
            stream_info.set_last(true);
        } else {
            assert(blocks@[n - 1].wf());
            assert(blocks@[n - 1].block_type != FlacMetadataBlockType::STREAMINFO);
            let mut b = blocks.pop().unwrap();
            assert(b == before[n - 1]);
            b.set_last(true);
            blocks.push(b);
            assert(blocks@[n - 1].wf() && blocks@[n - 1].block_type != FlacMetadataBlockType::STREAMINFO);
            assert(forall|i: int| 0 <= i < n - 1 ==> blocks@[i] == before[i]);
        }
        let t = FlacTag { file_path: String::new(), stream_info, metadata_blocks: blocks, music_data };
        proof {
            assert(t.metadata_blocks@.len() == n);
            assert forall|i: int| 0 <= i < t.metadata_blocks@.len() - 1 implies t.metadata_blocks@[i] == before[i] by {}
            assert forall|i: int| 0 <= i < t.chain().len() implies (#[trigger] t.chain()[i].is_last_block <==> i
                == t.chain().len() - 1) by {
                if i > 0 {
                    assert(t.chain()[i] == t.metadata_blocks@[i - 1]);
                    if i - 1 < n - 1 {
                        assert(!before[i - 1].is_last_block);
                    }
                } else {
                    assert(t.chain()[0] == t.stream_info);
                }
            }
            assert forall|i: int| 0 <= i < t.metadata_blocks@.len() implies #[trigger] t.metadata_blocks@[i].wf()
                && t.metadata_blocks@[i].block_type != FlacMetadataBlockType::STREAMINFO by {
                if i < n - 1 {
                    assert(t.metadata_blocks@[i] == before[i]);
                }
            }
        }
        Ok(t)
    }

    /// The bytes of the file: "fLaC", the blocks, then the audio.
    pub fn as_bytes(&self) -> (r: Vec<u8>)
        requires
            self.wf(),
        ensures
            r@ == self.bytes(),
    {
        let mut out: Vec<u8> = Vec::new();
        out.push(0x66);
        out.push(0x4c);
        out.push(0x61);
        out.push(0x43);
        let ghost head = out@;
        let sb = self.stream_info.as_bytes();
        append_slice(&mut out, sb.as_slice());
        proof {
            let c1 = self.chain().subrange(0, 1);
            assert(c1.drop_last() =~= Seq::<FlacMetadataBlock>::empty());
            assert(c1.last() == self.stream_info);
            assert(blocks_bytes(c1) == blocks_bytes(c1.drop_last()) + c1.last().bytes());
            assert(blocks_bytes(Seq::<FlacMetadataBlock>::empty()) == Seq::<u8>::empty());
            assert(out@ =~= head + blocks_bytes(self.chain().subrange(0, 1)));
        }
        let mut i: usize = 0;
        while i < self.metadata_blocks.len()
            invariant
                self.wf(),
                i <= self.metadata_blocks@.len(),
                out@ == head + blocks_bytes(self.chain().subrange(0, i + 1)),
            decreases self.metadata_blocks@.len() - i,
        {
            let bb = self.metadata_blocks[i].as_bytes();
            append_slice(&mut out, bb.as_slice());
            proof {
                assert(self.chain().subrange(0, i + 2).drop_last() =~= self.chain().subrange(0, i + 1));
                assert(self.chain()[i + 1] == self.metadata_blocks@[i as int]);
            }
            i = i + 1;
            assert(out@ =~= head + blocks_bytes(self.chain().subrange(0, i + 1)));
        }
        assert(self.chain().subrange(0, self.chain().len() as int) =~= self.chain());
        append_slice(&mut out, self.music_data.as_slice());
        assert(out@ =~= self.bytes());
        out
    }
}

/// Two blocks differ at most in their last-block flag.
pub open spec fn same_but_flag(a: FlacMetadataBlock, b: FlacMetadataBlock) -> bool {
    a.block_type == b.block_type && a.metadata_len == b.metadata_len && a.data == b.data
}

/// The outcome of inserting `blk`: before a trailing PADDING block, or else at the end.
pub open spec fn inserted(old: Seq<FlacMetadataBlock>, new: Seq<FlacMetadataBlock>, blk: FlacMetadataBlock) -> bool {
    &&& new.len() == old.len() + 1
    &&& if old.len() > 0 && old.last().block_type == FlacMetadataBlockType::PADDING {
        &&& forall|i: int| 0 <= i < old.len() - 1 ==> #[trigger] new[i] == old[i]
        &&& same_but_flag(new[old.len() - 1], blk)
        &&& new[old.len() as int] == old.last()
    } else {
        &&& forall|i: int| 0 <= i < old.len() ==> same_but_flag(#[trigger] new[i], old[i])
        &&& same_but_flag(new[old.len() as int], blk)
    }
}

/// The block holds Vorbis comments.
pub open spec fn is_vorbis(b: FlacMetadataBlock) -> bool {
    b.data is VORBISCOMMENT
}

/// The index of the first Vorbis comment block, or -1.
pub open spec fn vorbis_idx(bs: Seq<FlacMetadataBlock>) -> int {
    if exists|i: int| 0 <= i < bs.len() && #[trigger] is_vorbis(bs[i]) {
        choose|i: int|
            0 <= i < bs.len() && #[trigger] is_vorbis(bs[i]) && forall|j: int|
                0 <= j < i ==> !#[trigger] is_vorbis(bs[j])
    } else {
        -1
    }
}

/// The comments of the first Vorbis comment block; none when there is no such block.
pub open spec fn vorbis_model(bs: Seq<FlacMetadataBlock>) -> VorbisModel {
    if vorbis_idx(bs) >= 0 {
        bs[vorbis_idx(bs)].data->VORBISCOMMENT_0.comments@
    } else {
        Seq::empty()
    }
}

/// The vendor string of the first Vorbis comment block; empty when there is no such block.
pub open spec fn vorbis_vendor(bs: Seq<FlacMetadataBlock>) -> Seq<char> {
    if vorbis_idx(bs) >= 0 {
        bs[vorbis_idx(bs)].data->VORBISCOMMENT_0.vendor_name@
    } else {
        Seq::empty()
    }
}

/// A Vorbis comment block with this vendor and these comments fits in a block.
pub open spec fn vorbis_fits(vendor: Seq<char>, m: VorbisModel) -> bool {
    vorbis_ok(vendor, m) && vorbis_payload(vendor, m).len() <= MAX_BLOCK_LEN
}

proof fn lemma_vorbis_idx_at(bs: Seq<FlacMetadataBlock>, k: int)
    requires
        0 <= k < bs.len(),
        is_vorbis(bs[k]),
        forall|j: int| 0 <= j < k ==> !#[trigger] is_vorbis(bs[j]),
    ensures
        vorbis_idx(bs) == k,
{
    let i = vorbis_idx(bs);
    if i < k {
        assert(!is_vorbis(bs[i]));
    }
    if i > k {
        assert(!is_vorbis(bs[k]));
    }
}

impl FlacTag {
    /// Inserts a block: just before the final block when that is PADDING (so padding stays
    /// last), or else at the end, where it takes the last-block flag.
    pub fn add_block(&mut self, block: FlacMetadataBlock)
        requires
            old(self).wf(),
            block.wf(),
            block.block_type != FlacMetadataBlockType::STREAMINFO,
        ensures
            final(self).wf(),
            same_but_flag(final(self).stream_info, old(self).stream_info),
            final(self).music_data == old(self).music_data,
            final(self).file_path == old(self).file_path,
            inserted(old(self).metadata_blocks@, final(self).metadata_blocks@, block),
    {
        let mut block = block;
        let n = self.metadata_blocks.len();
        let ghost od = self.metadata_blocks@;
        proof {
            if n > 0 {
                assert(self.chain()[n as int] == od[n - 1]);
            }
            assert(self.chain()[0] == self.stream_info);
        }
        if n > 0 && self.metadata_blocks[n - 1].block_type == FlacMetadataBlockType::PADDING {
            block.set_last(false);
            self.metadata_blocks.insert(n - 1, block);
            proof {
                let nd = self.metadata_blocks@;
                assert forall|i: int| 0 <= i < n - 1 implies #[trigger] nd[i] == od[i] by {}
                assert(nd[n as int] == od[n - 1]);
                assert forall|i: int| 0 <= i < self.chain().len() implies (#[trigger] self.chain()[i].is_last_block
                    <==> i == self.chain().len() - 1) by {
                    if i > 0 && i - 1 < n - 1 {
                        assert(self.chain()[i] == od[i - 1]);
                        assert(old(self).chain()[i] == od[i - 1]);
                    }
                    if i == n + 1 {
                        assert(old(self).chain()[n as int] == od[n - 1]);
                    }
                }
                assert forall|i: int| 0 <= i < nd.len() implies #[trigger] nd[i].wf() && nd[i].block_type
                    != FlacMetadataBlockType::STREAMINFO by {
                    if i < n - 1 {
                        assert(nd[i] == od[i]);
                    } else if i == n {
                        assert(nd[i] == od[n - 1]);
                    }
                }
            }
        } else {
            if n == 0 {
                self.stream_info.set_last(false);
            } else {
                assert(od[n - 1].wf() && od[n - 1].block_type != FlacMetadataBlockType::STREAMINFO);
                let mut b = self.metadata_blocks.pop().unwrap();
                assert(b == od[n - 1]);
                b.set_last(false);
                self.metadata_blocks.push(b);
                assert(forall|i: int| 0 <= i < n - 1 ==> self.metadata_blocks@[i] == od[i]);
                assert(same_but_flag(self.metadata_blocks@[n - 1], od[n - 1]));
            }
            block.set_last(true);
            self.metadata_blocks.push(block);
            proof {
                let nd = self.metadata_blocks@;
                assert forall|i: int| 0 <= i < self.chain().len() implies (#[trigger] self.chain()[i].is_last_block
                    <==> i == self.chain().len() - 1) by {
                    if i > 0 && i - 1 < n - 1 {
                        assert(self.chain()[i] == od[i - 1]);
                        assert(old(self).chain()[i] == od[i - 1]);
                    }
                    if i == 0 && n > 0 {
                        assert(old(self).chain()[0] == old(self).stream_info);
                    }
                }
                assert forall|i: int| 0 <= i < nd.len() implies #[trigger] nd[i].wf() && nd[i].block_type
                    != FlacMetadataBlockType::STREAMINFO by {
                    if i < n - 1 {
                        assert(nd[i] == od[i]);
                    }
                }
                assert forall|i: int| 0 <= i < n implies same_but_flag(#[trigger] nd[i], od[i]) by {
                    if i < n - 1 {
                        assert(nd[i] == od[i]);
                    }
                }
            }
        }
    }

    /// The index of the first Vorbis comment block.
    pub fn vorbis_index(&self) -> (r: Option<usize>)
        ensures
            r matches Some(i) ==> vorbis_idx(self.metadata_blocks@) == i as int && i < self.metadata_blocks@.len()
                && is_vorbis(self.metadata_blocks@[i as int]),
            r is None ==> vorbis_idx(self.metadata_blocks@) == -1,
    {
        let mut i: usize = 0;
        while i < self.metadata_blocks.len()
            invariant
                i <= self.metadata_blocks@.len(),
                forall|j: int| 0 <= j < i ==> !#[trigger] is_vorbis(self.metadata_blocks@[j]),
            decreases self.metadata_blocks@.len() - i,
        {
            if self.metadata_blocks[i].as_vorbis_comments_block().is_some() {
                proof {
                    lemma_vorbis_idx_at(self.metadata_blocks@, i as int);
                }
                return Some(i);
            }
            i = i + 1;
        }
        None
    }

    /// The values of the Vorbis field `key` (compared without case), joined by commas, from
    /// the first Vorbis comment block that has the field.
    pub fn get_field(&self, key: &str) -> (r: Option<String>)
        requires
            self.wf(),
        ensures
            r matches Some(s) ==> field_of(self.metadata_blocks@, key@) == Some(s@),
            r is None ==> field_of(self.metadata_blocks@, key@) is None,
    {
        let ghost bs = self.metadata_blocks@;
        let mut i: usize = 0;
        assert(bs.subrange(0, bs.len() as int) =~= bs);
        while i < self.metadata_blocks.len()
            invariant
                self.wf(),
                bs == self.metadata_blocks@,
                i <= bs.len(),
                field_of(bs, key@) == field_of(bs.subrange(i as int, bs.len() as int), key@),
            decreases bs.len() - i,
        {
            let ghost tail = bs.subrange(i as int, bs.len() as int);
            assert(tail.drop_first() =~= bs.subrange(i + 1, bs.len() as int));
            assert(tail[0] == bs[i as int]);
            assert(bs[i as int].wf());
            if let Some(v) = self.metadata_blocks[i].as_vorbis_comments_block() {
                let got = v.comments.get(key);
                if got.is_some() {
                    return got;
                }
            }
            i = i + 1;
        }
        assert(bs.subrange(i as int, bs.len() as int) =~= Seq::<FlacMetadataBlock>::empty());
        None
    }
}

/// The values of field `key`, joined by commas, in the first Vorbis comment block that has it.
pub open spec fn field_of(bs: Seq<FlacMetadataBlock>, key: Seq<char>) -> Option<Seq<char>>
    decreases bs.len(),
{
    if bs.len() == 0 {
        None
    } else {
        match bs[0].data {
            FlacMetadataBlockData::VORBISCOMMENT(v) => if get_spec(v.comments@, key) is Some {
                get_spec(v.comments@, key)
            } else {
                field_of(bs.drop_first(), key)
            },
            _ => field_of(bs.drop_first(), key),
        }
    }
}

/// `new` is `old` where only the first Vorbis comment block may have changed, or been added.
pub open spec fn vorbis_edit(old: FlacTag, new: FlacTag) -> bool {
    &&& new.wf()
    &&& same_but_flag(new.stream_info, old.stream_info)
    &&& new.music_data == old.music_data
    &&& new.file_path == old.file_path
    &&& vorbis_vendor(new.metadata_blocks@) == vorbis_vendor(old.metadata_blocks@)
    &&& blocks_edit(old.metadata_blocks@, new.metadata_blocks@)
}

/// `new` is `old` without the Vorbis field `key` (compared without case); a tag with no
/// Vorbis comment block is left as it is.
pub open spec fn field_removed(old: FlacTag, new: FlacTag, key: Seq<char>) -> bool {
    &&& vorbis_idx(old.metadata_blocks@) >= 0 ==> comments_became(
        old,
        new,
        vorbis_model(old.metadata_blocks@).filter(key_differs(upper(key))),
    )
    &&& vorbis_idx(old.metadata_blocks@) < 0 ==> new == old
}

/// Where a new block goes: before a trailing PADDING block, or else at the end.
pub open spec fn ins_pos(bs: Seq<FlacMetadataBlock>) -> int {
    if bs.len() > 0 && bs.last().block_type == FlacMetadataBlockType::PADDING {
        bs.len() - 1
    } else {
        bs.len() as int
    }
}

/// `new` is `old` but for block `i`, which holds Vorbis comments and keeps its flag.
pub open spec fn kept_but_vorbis(old: Seq<FlacMetadataBlock>, new: Seq<FlacMetadataBlock>, i: int) -> bool {
    &&& 0 <= i < old.len()
    &&& new.len() == old.len()
    &&& forall|j: int| 0 <= j < old.len() && j != i ==> new[j] == old[j]
    &&& new[i].is_last_block == old[i].is_last_block
    &&& is_vorbis(new[i])
}

/// The blocks after an edit of the Vorbis comments: only the first comment block changed or,
/// where there was none, one comment block was inserted as `add_block` inserts blocks.
pub open spec fn blocks_edit(old: Seq<FlacMetadataBlock>, new: Seq<FlacMetadataBlock>) -> bool {
    if vorbis_idx(old) >= 0 {
        kept_but_vorbis(old, new, vorbis_idx(old))
    } else {
        vorbis_idx(new) == ins_pos(old) && exists|blk: FlacMetadataBlock| #[trigger] inserted(old, new, blk)
    }
}

proof fn lemma_blocks_edit_compose(a: Seq<FlacMetadataBlock>, b: Seq<FlacMetadataBlock>, c: Seq<FlacMetadataBlock>)
    requires
        blocks_edit(a, b),
        vorbis_idx(b) >= 0,
        kept_but_vorbis(b, c, vorbis_idx(b)),
    ensures
        blocks_edit(a, c),
{
    lemma_vorbis_idx_props(a);
    lemma_vorbis_idx_props(b);
    let i = vorbis_idx(b);
    if vorbis_idx(a) >= 0 {
        assert(i == vorbis_idx(a)) by {
            lemma_vorbis_idx_at(b, vorbis_idx(a));
        }
    } else {
        let blk = choose|blk: FlacMetadataBlock| #[trigger] inserted(a, b, blk);
        assert(inserted(a, c, c[i]));
        assert forall|j: int| 0 <= j < i implies !#[trigger] is_vorbis(c[j]) by {
            assert(c[j] == b[j]);
        }
        lemma_vorbis_idx_at(c, i);
    }
}

/// `new` is `old` with the comments of its first Vorbis block set to `m` when they fit a block,
/// and unchanged otherwise.
pub open spec fn comments_became(old: FlacTag, new: FlacTag, m: VorbisModel) -> bool {
    &&& vorbis_edit(old, new)
    &&& vorbis_fits(vorbis_vendor(old.metadata_blocks@), m) ==> vorbis_model(new.metadata_blocks@) == m
    &&& !vorbis_fits(vorbis_vendor(old.metadata_blocks@), m) ==> vorbis_model(new.metadata_blocks@)
        == vorbis_model(old.metadata_blocks@)
}

proof fn lemma_vorbis_first(bs: Seq<FlacMetadataBlock>, k: int)
    requires
        0 <= k < bs.len(),
        is_vorbis(bs[k]),
    ensures
        exists|i: int|
            0 <= i < bs.len() && #[trigger] is_vorbis(bs[i]) && forall|j: int|
                0 <= j < i ==> !#[trigger] is_vorbis(bs[j]),
    decreases k,
{
    if exists|j: int| 0 <= j < k && #[trigger] is_vorbis(bs[j]) {
        let j = choose|j: int| 0 <= j < k && #[trigger] is_vorbis(bs[j]);
        lemma_vorbis_first(bs, j);
    }
}

/// What `vorbis_idx` says of a list of blocks.
pub proof fn lemma_vorbis_idx_props(bs: Seq<FlacMetadataBlock>)
    ensures
        vorbis_idx(bs) >= 0 ==> vorbis_idx(bs) < bs.len() && is_vorbis(bs[vorbis_idx(bs)]) && forall|j: int|
            0 <= j < vorbis_idx(bs) ==> !#[trigger] is_vorbis(bs[j]),
        vorbis_idx(bs) < 0 ==> vorbis_idx(bs) == -1 && forall|j: int| 0 <= j < bs.len() ==> !#[trigger] is_vorbis(bs[j]),
{
    if exists|i: int| 0 <= i < bs.len() && #[trigger] is_vorbis(bs[i]) {
        let k = choose|i: int| 0 <= i < bs.len() && #[trigger] is_vorbis(bs[i]);
        lemma_vorbis_first(bs, k);
    }
}

/// Replacing the first Vorbis block by another Vorbis block keeps it first.
proof fn lemma_replace_vorbis(od: Seq<FlacMetadataBlock>, i: int, nb: FlacMetadataBlock)
    requires
        0 <= i < od.len(),
        vorbis_idx(od) == i,
        is_vorbis(nb),
    ensures
        vorbis_idx(od.update(i, nb)) == i,
{
    lemma_vorbis_idx_props(od);
    let nd = od.update(i, nb);
    assert forall|j: int| 0 <= j < i implies !#[trigger] is_vorbis(nd[j]) by {
        assert(nd[j] == od[j]);
    }
    lemma_vorbis_idx_at(nd, i);
}

impl FlacTag {
    /// The index of the first Vorbis comment block, after adding an empty one where there is none.
    fn ensure_vorbis_block(&mut self) -> (r: usize)
        requires
            old(self).wf(),
        ensures
            vorbis_edit(*old(self), *final(self)),
            vorbis_idx(final(self).metadata_blocks@) == r as int,
            r < final(self).metadata_blocks@.len(),
            vorbis_model(final(self).metadata_blocks@) == vorbis_model(old(self).metadata_blocks@),
    {
        match self.vorbis_index() {
            Some(i) => i,
            None => {
                let ghost od = self.metadata_blocks@;
                let blk = FlacMetadataBlock::default_from(FlacMetadataBlockType::VORBISCOMMENT);
                let n = self.metadata_blocks.len();
                let padding_last = n > 0 && self.metadata_blocks[n - 1].block_type
                    == FlacMetadataBlockType::PADDING;
                self.add_block(blk);
                let i = if padding_last { n - 1 } else { n };
                proof {
                    let nd = self.metadata_blocks@;
                    lemma_vorbis_idx_props(od);
                    assert(padding_last == (od.len() > 0 && od.last().block_type == FlacMetadataBlockType::PADDING));
                    assert(inserted(od, nd, blk));
                    assert forall|j: int| 0 <= j < i implies !#[trigger] is_vorbis(nd[j]) by {
                        assert(!is_vorbis(od[j]));
                        if padding_last {
                            assert(nd[j] == od[j]);
                        } else {
                            assert(same_but_flag(nd[j], od[j]));
                        }
                    }
                    assert(is_vorbis(nd[i as int]));
                    lemma_vorbis_idx_at(nd, i as int);
                    assert(nd[i as int].data == blk.data);
                    assert(vorbis_vendor(nd) =~= vorbis_vendor(od));
                    assert(vorbis_model(nd) =~= vorbis_model(od));
                }
                i
            },
        }
    }

    /// Puts `m` in the Vorbis comment block at `i`, if the block can hold it.
    fn replace_comments(&mut self, i: usize, m: VorbisVector) -> (r: bool)
        requires
            old(self).wf(),
            i < old(self).metadata_blocks@.len(),
            vorbis_idx(old(self).metadata_blocks@) == i as int,
            m.wf(),
        ensures
            vorbis_edit(*old(self), *final(self)),
            r <==> vorbis_fits(vorbis_vendor(old(self).metadata_blocks@), m@),
            r ==> vorbis_model(final(self).metadata_blocks@) == m@,
            !r ==> vorbis_model(final(self).metadata_blocks@) == vorbis_model(old(self).metadata_blocks@),
    {
        let ghost od = self.metadata_blocks@;
        proof {
            lemma_vorbis_idx_props(od);
            assert(od[i as int].wf());
        }
        proof {
            assert(kept_but_vorbis(od, od, i as int));
        }
        let vendor = match self.metadata_blocks[i].as_vorbis_comments_block() {
            Some(v) => v.vendor_name.clone(),
            None => {
                return false;
            },
        };
        if vendor.as_str().as_bytes().len() as u64 >= 0x1_0000_0000u64 || !m.pairs_fit() {
            return false;
        }
        let ghost mv = m@;
        let data = FlacMetadataBlockData::VORBISCOMMENT(VorbisCommentBlock { vendor_name: vendor, comments: m });
        let nb = match FlacMetadataBlock::from_data(data) {
            Some(b) => b,
            None => {
                return false;
            },
        };
        let mut nb = nb;
        let last = self.metadata_blocks[i].is_last_block;
        nb.set_last(last);
        let ghost old_chain = self.chain();
        let _ = self.metadata_blocks.remove(i);
        self.metadata_blocks.insert(i, nb);
        proof {
            let nd = self.metadata_blocks@;
            assert(nd =~= od.update(i as int, nb));
            lemma_replace_vorbis(od, i as int, nb);
            assert(nb.is_last_block == od[i as int].is_last_block);
            assert(kept_but_vorbis(od, nd, i as int));
            assert forall|j: int| 0 <= j < self.chain().len() implies (#[trigger] self.chain()[j].is_last_block
                <==> j == self.chain().len() - 1) by {
                assert(old_chain[j].is_last_block <==> j == old_chain.len() - 1);
                if j > 0 {
                    assert(self.chain()[j] == nd[j - 1]);
                    assert(old_chain[j] == od[j - 1]);
                } else {
                    assert(self.chain()[0] == old_chain[0]);
                }
            }
            assert forall|j: int| 0 <= j < nd.len() implies #[trigger] nd[j].wf() && nd[j].block_type
                != FlacMetadataBlockType::STREAMINFO by {
                if j != i {
                    assert(nd[j] == od[j]);
                }
            }
        }
        true
    }

    /// Sets the Vorbis field `key` (upper-cased) to `value` alone.
    pub fn set_field(&mut self, key: &str, value: &str)
        requires
            old(self).wf(),
        ensures
            comments_became(*old(self), *final(self), set_spec(vorbis_model(old(self).metadata_blocks@), key@, value@)),
    {
        let i = self.ensure_vorbis_block();
        proof {
            lemma_vorbis_idx_props(self.metadata_blocks@);
            assert(self.metadata_blocks@[i as int].wf());
        }
        let mut m = self.metadata_blocks[i].as_vorbis_comments_block().unwrap().comments.duplicate();
        m.set(key, value);
        let ghost mid = self.metadata_blocks@;
        let _ = self.replace_comments(i, m);
        proof {
            lemma_blocks_edit_compose(old(self).metadata_blocks@, mid, self.metadata_blocks@);
        }
    }

    /// Adds `value` to the Vorbis field `key` (upper-cased), unless it is there already.
    pub fn add_field(&mut self, key: &str, value: &str)
        requires
            old(self).wf(),
        ensures
            comments_became(*old(self), *final(self), add_spec(vorbis_model(old(self).metadata_blocks@), key@, value@)),
    {
        let i = self.ensure_vorbis_block();
        proof {
            lemma_vorbis_idx_props(self.metadata_blocks@);
            assert(self.metadata_blocks@[i as int].wf());
        }
        let mut m = self.metadata_blocks[i].as_vorbis_comments_block().unwrap().comments.duplicate();
        m.add(key, value);
        let ghost mid = self.metadata_blocks@;
        let _ = self.replace_comments(i, m);
        proof {
            lemma_blocks_edit_compose(old(self).metadata_blocks@, mid, self.metadata_blocks@);
        }
    }

    /// Removes the Vorbis field `key` (compared without case).
    pub fn remove_field(&mut self, key: &str)
        requires
            old(self).wf(),
        ensures
            field_removed(*old(self), *final(self), key@),
    {
        if self.vorbis_index().is_none() {
            return ;
        }
        let i = self.ensure_vorbis_block();
        proof {
            lemma_vorbis_idx_props(self.metadata_blocks@);
            assert(self.metadata_blocks@[i as int].wf());
        }
        let mut m = self.metadata_blocks[i].as_vorbis_comments_block().unwrap().comments.duplicate();
        m.remove(key);
        let ghost mid = self.metadata_blocks@;
        let _ = self.replace_comments(i, m);
        proof {
            lemma_blocks_edit_compose(old(self).metadata_blocks@, mid, self.metadata_blocks@);
        }
    }
}

impl FlacTag {
    /// The values of the TITLE field, joined by commas.
    pub fn title(&self) -> (r: Option<String>)
        requires
            self.wf(),
        ensures
            r matches Some(s) ==> field_of(self.metadata_blocks@, "TITLE"@) == Some(s@),
            r is None ==> field_of(self.metadata_blocks@, "TITLE"@) is None,
    {
        self.get_field("TITLE")
    }

    /// The values of the ARTIST field, joined by commas.
    pub fn artist(&self) -> (r: Option<String>)
        requires
            self.wf(),
        ensures
            r matches Some(s) ==> field_of(self.metadata_blocks@, "ARTIST"@) == Some(s@),
            r is None ==> field_of(self.metadata_blocks@, "ARTIST"@) is None,
    {
        self.get_field("ARTIST")
    }

    /// The values of the ALBUM field, joined by commas.
    pub fn album(&self) -> (r: Option<String>)
        requires
            self.wf(),
        ensures
            r matches Some(s) ==> field_of(self.metadata_blocks@, "ALBUM"@) == Some(s@),
            r is None ==> field_of(self.metadata_blocks@, "ALBUM"@) is None,
    {
        self.get_field("ALBUM")
    }

    /// The values of the ALBUMARTIST field, joined by commas.
    pub fn album_artist(&self) -> (r: Option<String>)
        requires
            self.wf(),
        ensures
            r matches Some(s) ==> field_of(self.metadata_blocks@, "ALBUMARTIST"@) == Some(s@),
            r is None ==> field_of(self.metadata_blocks@, "ALBUMARTIST"@) is None,
    {
        self.get_field("ALBUMARTIST")
    }

    /// The values of the GENRE field, joined by commas.
    pub fn genre(&self) -> (r: Option<String>)
        requires
            self.wf(),
        ensures
            r matches Some(s) ==> field_of(self.metadata_blocks@, "GENRE"@) == Some(s@),
            r is None ==> field_of(self.metadata_blocks@, "GENRE"@) is None,
    {
        self.get_field("GENRE")
    }

    /// The values of the COPYRIGHT field, joined by commas.
    pub fn copyright(&self) -> (r: Option<String>)
        requires
            self.wf(),
        ensures
            r matches Some(s) ==> field_of(self.metadata_blocks@, "COPYRIGHT"@) == Some(s@),
            r is None ==> field_of(self.metadata_blocks@, "COPYRIGHT"@) is None,
    {
        self.get_field("COPYRIGHT")
    }

    /// The values of the DATE field, joined by commas.
    pub fn date(&self) -> (r: Option<String>)
        requires
            self.wf(),
        ensures
            r matches Some(s) ==> field_of(self.metadata_blocks@, "DATE"@) == Some(s@),
            r is None ==> field_of(self.metadata_blocks@, "DATE"@) is None,
    {
        self.get_field("DATE")
    }

    /// The values of the COMPOSER field, joined by commas.
    pub fn composer(&self) -> (r: Option<String>)
        requires
            self.wf(),
        ensures
            r matches Some(s) ==> field_of(self.metadata_blocks@, "COMPOSER"@) == Some(s@),
            r is None ==> field_of(self.metadata_blocks@, "COMPOSER"@) is None,
    {
        self.get_field("COMPOSER")
    }

    /// The values of the DISCNUMBER field, joined by commas.
    pub fn disc(&self) -> (r: Option<String>)
        requires
            self.wf(),
        ensures
            r matches Some(s) ==> field_of(self.metadata_blocks@, "DISCNUMBER"@) == Some(s@),
            r is None ==> field_of(self.metadata_blocks@, "DISCNUMBER"@) is None,
    {
        self.get_field("DISCNUMBER")
    }

    /// The values of the DISCTOTAL field, joined by commas.
    pub fn total_disc(&self) -> (r: Option<String>)
        requires
            self.wf(),
        ensures
            r matches Some(s) ==> field_of(self.metadata_blocks@, "DISCTOTAL"@) == Some(s@),
            r is None ==> field_of(self.metadata_blocks@, "DISCTOTAL"@) is None,
    {
        self.get_field("DISCTOTAL")
    }

    /// The values of the TRACKNUMBER field, joined by commas.
    pub fn track_position(&self) -> (r: Option<String>)
        requires
            self.wf(),
        ensures
            r matches Some(s) ==> field_of(self.metadata_blocks@, "TRACKNUMBER"@) == Some(s@),
            r is None ==> field_of(self.metadata_blocks@, "TRACKNUMBER"@) is None,
    {
        self.get_field("TRACKNUMBER")
    }

    /// The values of the TRACKTOTAL field, joined by commas.
    pub fn total_track(&self) -> (r: Option<String>)
        requires
            self.wf(),
        ensures
            r matches Some(s) ==> field_of(self.metadata_blocks@, "TRACKTOTAL"@) == Some(s@),
            r is None ==> field_of(self.metadata_blocks@, "TRACKTOTAL"@) is None,
    {
        self.get_field("TRACKTOTAL")
    }

    /// The values of the COMMENT field, joined by commas.
    pub fn comments(&self) -> (r: Option<String>)
        requires
            self.wf(),
        ensures
            r matches Some(s) ==> field_of(self.metadata_blocks@, "COMMENT"@) == Some(s@),
            r is None ==> field_of(self.metadata_blocks@, "COMMENT"@) is None,
    {
        self.get_field("COMMENT")
    }

    /// The values of the DISCID field, joined by commas.
    pub fn disc_id(&self) -> (r: Option<String>)
        requires
            self.wf(),
        ensures
            r matches Some(s) ==> field_of(self.metadata_blocks@, "DISCID"@) == Some(s@),
            r is None ==> field_of(self.metadata_blocks@, "DISCID"@) is None,
    {
        self.get_field("DISCID")
    }

    /// The values of the ORGANIZATION field, joined by commas.
    pub fn organisation(&self) -> (r: Option<String>)
        requires
            self.wf(),
        ensures
            r matches Some(s) ==> field_of(self.metadata_blocks@, "ORGANIZATION"@) == Some(s@),
            r is None ==> field_of(self.metadata_blocks@, "ORGANIZATION"@) is None,
    {
        self.get_field("ORGANIZATION")
    }

    /// The values of the Vorbis field `field`, joined by commas.
    pub fn get_custom_field(&self, field: &str) -> (r: Option<String>)
        requires
            self.wf(),
        ensures
            r matches Some(s) ==> field_of(self.metadata_blocks@, field@) == Some(s@),
            r is None ==> field_of(self.metadata_blocks@, field@) is None,
    {
        self.get_field(field)
    }

    /// Sets the Vorbis field `field` to `content` alone.
    pub fn set_custom_field(&mut self, field: &str, content: &str)
        requires
            old(self).wf(),
        ensures
            comments_became(*old(self), *final(self), set_spec(vorbis_model(old(self).metadata_blocks@), field@, content@)),
    {
        self.set_field(field, content)
    }

    /// Removes the Vorbis field `field`.
    pub fn remove_custom_field(&mut self, field: &str)
        requires
            old(self).wf(),
        ensures
            field_removed(*old(self), *final(self), field@),
    {
        self.remove_field(field)
    }

    /// Sets the TITLE field to `content` alone.
    pub fn set_title(&mut self, content: &str)
        requires
            old(self).wf(),
        ensures
            comments_became(*old(self), *final(self), set_spec(vorbis_model(old(self).metadata_blocks@), "TITLE"@, content@)),
    {
        self.set_field("TITLE", content)
    }

    /// Sets the ARTIST field to `content` alone.
    pub fn set_artist(&mut self, content: &str)
        requires
            old(self).wf(),
        ensures
            comments_became(*old(self), *final(self), set_spec(vorbis_model(old(self).metadata_blocks@), "ARTIST"@, content@)),
    {
        self.set_field("ARTIST", content)
    }

    /// Sets the ALBUM field to `content` alone.
    pub fn set_album(&mut self, content: &str)
        requires
            old(self).wf(),
        ensures
            comments_became(*old(self), *final(self), set_spec(vorbis_model(old(self).metadata_blocks@), "ALBUM"@, content@)),
    {
        self.set_field("ALBUM", content)
    }

    /// Sets the ALBUMARTIST field to `content` alone.
    pub fn set_album_artist(&mut self, content: &str)
        requires
            old(self).wf(),
        ensures
            comments_became(*old(self), *final(self), set_spec(vorbis_model(old(self).metadata_blocks@), "ALBUMARTIST"@, content@)),
    {
        self.set_field("ALBUMARTIST", content)
    }

    /// Sets the GENRE field to `content` alone.
    pub fn set_genre(&mut self, content: &str)
        requires
            old(self).wf(),
        ensures
            comments_became(*old(self), *final(self), set_spec(vorbis_model(old(self).metadata_blocks@), "GENRE"@, content@)),
    {
        self.set_field("GENRE", content)
    }

    /// Sets the COPYRIGHT field to `content` alone.
    pub fn set_copyright(&mut self, content: &str)
        requires
            old(self).wf(),
        ensures
            comments_became(*old(self), *final(self), set_spec(vorbis_model(old(self).metadata_blocks@), "COPYRIGHT"@, content@)),
    {
        self.set_field("COPYRIGHT", content)
    }

    /// Sets the DATE field to `content` alone.
    pub fn set_date(&mut self, content: &str)
        requires
            old(self).wf(),
        ensures
            comments_became(*old(self), *final(self), set_spec(vorbis_model(old(self).metadata_blocks@), "DATE"@, content@)),
    {
        self.set_field("DATE", content)
    }

    /// Sets the COMPOSER field to `content` alone.
    pub fn set_composer(&mut self, content: &str)
        requires
            old(self).wf(),
        ensures
            comments_became(*old(self), *final(self), set_spec(vorbis_model(old(self).metadata_blocks@), "COMPOSER"@, content@)),
    {
        self.set_field("COMPOSER", content)
    }

    /// Sets the COMMENT field to `content` alone.
    pub fn set_comment(&mut self, content: &str)
        requires
            old(self).wf(),
        ensures
            comments_became(*old(self), *final(self), set_spec(vorbis_model(old(self).metadata_blocks@), "COMMENT"@, content@)),
    {
        self.set_field("COMMENT", content)
    }

    /// Sets the ORGANIZATION field to `content` alone.
    pub fn set_organisation(&mut self, content: &str)
        requires
            old(self).wf(),
        ensures
            comments_became(*old(self), *final(self), set_spec(vorbis_model(old(self).metadata_blocks@), "ORGANIZATION"@, content@)),
    {
        self.set_field("ORGANIZATION", content)
    }

    /// Adds `content` to the values of the ARTIST field.
    pub fn add_artist(&mut self, content: &str)
        requires
            old(self).wf(),
        ensures
            comments_became(*old(self), *final(self), add_spec(vorbis_model(old(self).metadata_blocks@), "ARTIST"@, content@)),
    {
        self.add_field("ARTIST", content)
    }

    /// Adds `content` to the values of the ALBUMARTIST field.
    pub fn add_album_artist(&mut self, content: &str)
        requires
            old(self).wf(),
        ensures
            comments_became(*old(self), *final(self), add_spec(vorbis_model(old(self).metadata_blocks@), "ALBUMARTIST"@, content@)),
    {
        self.add_field("ALBUMARTIST", content)
    }

    /// Adds `content` to the values of the GENRE field.
    pub fn add_genre(&mut self, content: &str)
        requires
            old(self).wf(),
        ensures
            comments_became(*old(self), *final(self), add_spec(vorbis_model(old(self).metadata_blocks@), "GENRE"@, content@)),
    {
        self.add_field("GENRE", content)
    }

    /// Adds `content` to the values of the COMPOSER field.
    pub fn add_composer(&mut self, content: &str)
        requires
            old(self).wf(),
        ensures
            comments_became(*old(self), *final(self), add_spec(vorbis_model(old(self).metadata_blocks@), "COMPOSER"@, content@)),
    {
        self.add_field("COMPOSER", content)
    }

    /// Adds `content` to the values of the COMMENT field.
    pub fn add_comment(&mut self, content: &str)
        requires
            old(self).wf(),
        ensures
            comments_became(*old(self), *final(self), add_spec(vorbis_model(old(self).metadata_blocks@), "COMMENT"@, content@)),
    {
        self.add_field("COMMENT", content)
    }

    /// Sets the BPM field to the decimal form of `content`.
    pub fn set_bpm(&mut self, content: u16)
        requires
            old(self).wf(),
        ensures
            comments_became(
                *old(self),
                *final(self),
                set_spec(vorbis_model(old(self).metadata_blocks@), "BPM"@, decimal_of(content as nat)),
            ),
    {
        let s = u16_to_string(content);
        self.set_field("BPM", s.as_str())
    }

    /// Sets the DISCNUMBER field to the decimal form of `content`.
    pub fn set_disc(&mut self, content: u16)
        requires
            old(self).wf(),
        ensures
            comments_became(
                *old(self),
                *final(self),
                set_spec(vorbis_model(old(self).metadata_blocks@), "DISCNUMBER"@, decimal_of(content as nat)),
            ),
    {
        let s = u16_to_string(content);
        self.set_field("DISCNUMBER", s.as_str())
    }

    /// Sets the DISCTOTAL field to the decimal form of `content`.
    pub fn set_total_disc(&mut self, content: u16)
        requires
            old(self).wf(),
        ensures
            comments_became(
                *old(self),
                *final(self),
                set_spec(vorbis_model(old(self).metadata_blocks@), "DISCTOTAL"@, decimal_of(content as nat)),
            ),
    {
        let s = u16_to_string(content);
        self.set_field("DISCTOTAL", s.as_str())
    }

    /// Sets the TRACKNUMBER field to the decimal form of `content`.
    pub fn set_track_position(&mut self, content: u16)
        requires
            old(self).wf(),
        ensures
            comments_became(
                *old(self),
                *final(self),
                set_spec(vorbis_model(old(self).metadata_blocks@), "TRACKNUMBER"@, decimal_of(content as nat)),
            ),
    {
        let s = u16_to_string(content);
        self.set_field("TRACKNUMBER", s.as_str())
    }

    /// Sets the TRACKTOTAL field to the decimal form of `content`.
    pub fn set_total_track(&mut self, content: u16)
        requires
            old(self).wf(),
        ensures
            comments_became(
                *old(self),
                *final(self),
                set_spec(vorbis_model(old(self).metadata_blocks@), "TRACKTOTAL"@, decimal_of(content as nat)),
            ),
    {
        let s = u16_to_string(content);
        self.set_field("TRACKTOTAL", s.as_str())
    }

    /// Removes the TITLE field.
    pub fn remove_title(&mut self)
        requires
            old(self).wf(),
        ensures
            field_removed(*old(self), *final(self), "TITLE"@),
    {
        self.remove_field("TITLE")
    }

    /// Removes the ARTIST field.
    pub fn remove_artist(&mut self)
        requires
            old(self).wf(),
        ensures
            field_removed(*old(self), *final(self), "ARTIST"@),
    {
        self.remove_field("ARTIST")
    }

    /// Removes the ALBUMARTIST field.
    pub fn remove_album_artist(&mut self)
        requires
            old(self).wf(),
        ensures
            field_removed(*old(self), *final(self), "ALBUMARTIST"@),
    {
        self.remove_field("ALBUMARTIST")
    }

    /// Removes the ALBUM field.
    pub fn remove_album(&mut self)
        requires
            old(self).wf(),
        ensures
            field_removed(*old(self), *final(self), "ALBUM"@),
    {
        self.remove_field("ALBUM")
    }

    /// Removes the GENRE field.
    pub fn remove_genre(&mut self)
        requires
            old(self).wf(),
        ensures
            field_removed(*old(self), *final(self), "GENRE"@),
    {
        self.remove_field("GENRE")
    }

    /// Removes the COPYRIGHT field.
    pub fn remove_copyright(&mut self)
        requires
            old(self).wf(),
        ensures
            field_removed(*old(self), *final(self), "COPYRIGHT"@),
    {
        self.remove_field("COPYRIGHT")
    }

    /// Removes the DATE field.
    pub fn remove_date(&mut self)
        requires
            old(self).wf(),
        ensures
            field_removed(*old(self), *final(self), "DATE"@),
    {
        self.remove_field("DATE")
    }

    /// Removes the COMPOSER field.
    pub fn remove_composer(&mut self)
        requires
            old(self).wf(),
        ensures
            field_removed(*old(self), *final(self), "COMPOSER"@),
    {
        self.remove_field("COMPOSER")
    }

    /// Removes the DISCNUMBER field.
    pub fn remove_disc(&mut self)
        requires
            old(self).wf(),
        ensures
            field_removed(*old(self), *final(self), "DISCNUMBER"@),
    {
        self.remove_field("DISCNUMBER")
    }

    /// Removes the DISCTOTAL field.
    pub fn remove_total_disc(&mut self)
        requires
            old(self).wf(),
        ensures
            field_removed(*old(self), *final(self), "DISCTOTAL"@),
    {
        self.remove_field("DISCTOTAL")
    }

    /// Removes the TRACKNUMBER field.
    pub fn remove_track_position(&mut self)
        requires
            old(self).wf(),
        ensures
            field_removed(*old(self), *final(self), "TRACKNUMBER"@),
    {
        self.remove_field("TRACKNUMBER")
    }

    /// Removes the BPM field.
    pub fn remove_bpm(&mut self)
        requires
            old(self).wf(),
        ensures
            field_removed(*old(self), *final(self), "BPM"@),
    {
        self.remove_field("BPM")
    }

    /// Removes the TRACKTOTAL field.
    pub fn remove_total_track(&mut self)
        requires
            old(self).wf(),
        ensures
            field_removed(*old(self), *final(self), "TRACKTOTAL"@),
    {
        self.remove_field("TRACKTOTAL")
    }

    /// Removes the COMMENT field.
    pub fn remove_comments(&mut self)
        requires
            old(self).wf(),
        ensures
            field_removed(*old(self), *final(self), "COMMENT"@),
    {
        self.remove_field("COMMENT")
    }

    /// Removes the ORGANIZATION field.
    pub fn remove_organisation(&mut self)
        requires
            old(self).wf(),
        ensures
            field_removed(*old(self), *final(self), "ORGANIZATION"@),
    {
        self.remove_field("ORGANIZATION")
    }

}

/// The text of an optional string; empty when absent.
pub open spec fn opt_str(d: Option<&str>) -> Seq<char> {
    match d {
        Some(d) => d@,
        None => Seq::<char>::empty(),
    }
}

/// A picture with this MIME type, description and data length fits in a block.
pub open spec fn picture_fits(mime: Seq<char>, desc: Seq<char>, n: nat) -> bool {
    &&& vstd::utf8::encode_utf8(mime).len() < 0x1_0000_0000
    &&& vstd::utf8::encode_utf8(desc).len() < 0x1_0000_0000
    &&& n < 0x1_0000_0000
    &&& 32 + vstd::utf8::encode_utf8(mime).len() + vstd::utf8::encode_utf8(desc).len() + n <= MAX_BLOCK_LEN
}

proof fn lemma_picture_len(p: PictureBlock)
    ensures
        data_bytes(FlacMetadataBlockData::PICTURE(p)).len() == 32 + vstd::utf8::encode_utf8(p.mime_type@).len()
            + vstd::utf8::encode_utf8(p.description@).len() + p.pict_data@.len(),
{
    crate::bytes::lemma_be_seq_len(p.picture_type as nat, 4);
    crate::bytes::lemma_be_seq_len(vstd::utf8::encode_utf8(p.mime_type@).len(), 4);
    crate::bytes::lemma_be_seq_len(vstd::utf8::encode_utf8(p.description@).len(), 4);
    crate::bytes::lemma_be_seq_len(p.pict_width as nat, 4);
    crate::bytes::lemma_be_seq_len(p.pict_height as nat, 4);
    crate::bytes::lemma_be_seq_len(p.color_depth as nat, 4);
    crate::bytes::lemma_be_seq_len(p.number_of_color as nat, 4);
    crate::bytes::lemma_be_seq_len(p.pict_data@.len(), 4);
}

/// The picture data of the picture blocks, in order.
pub open spec fn pictures_of(bs: Seq<FlacMetadataBlock>) -> Seq<Seq<u8>>
    decreases bs.len(),
{
    if bs.len() == 0 {
        Seq::empty()
    } else {
        let rest = pictures_of(bs.drop_last());
        match bs.last().data {
            FlacMetadataBlockData::PICTURE(p) => rest.push(p.pict_data@),
            _ => rest,
        }
    }
}

impl PictureBlock {
    /// A picture of MIME type "image/`mime_type`"; the description defaults to empty and the
    /// number of colours to 0.
    pub fn new(
        picture_type: PictureType,
        mime_type: &str,
        description: Option<&str>,
        picture_width: u32,
        picture_height: u32,
        color_depth: u32,
        number_color_used: Option<u32>,
        picture_data: &Vec<u8>,
    ) -> (r: PictureBlock)
        ensures
            r.picture_type == picture_type.raw() as u32,
            r.mime_type@ == "image/"@ + mime_type@,
            r.description@ == match description {
                Some(d) => d@,
                None => Seq::<char>::empty(),
            },
            r.pict_width == picture_width,
            r.pict_height == picture_height,
            r.color_depth == color_depth,
            r.number_of_color == match number_color_used {
                Some(n) => n,
                None => 0,
            },
            r.pict_data@ == picture_data@,
    {
        let description = match description {
            Some(d) => d.to_owned(),
            None => String::new(),
        };
        let number_of_color = match number_color_used {
            Some(n) => n,
            None => 0,
        };
        PictureBlock {
            picture_type: picture_type.raw_value() as u32,
            mime_type: String::from_str("image/").concat(mime_type),
            description,
            pict_width: picture_width,
            pict_height: picture_height,
            color_depth,
            number_of_color,
            pict_data: picture_data.clone(),
        }
    }

    pub fn get_picture_data(&self) -> (r: &Vec<u8>)
        ensures
            r == &self.pict_data,
    {
        &self.pict_data
    }
}

impl FlacTag {
    /// The data of the pictures, in order.
    pub fn pictures(&self) -> (r: Vec<Vec<u8>>)
        ensures
            r@.map_values(|v: Vec<u8>| v@) == pictures_of(self.metadata_blocks@),
    {
        let mut out: Vec<Vec<u8>> = Vec::new();
        let mut i: usize = 0;
        while i < self.metadata_blocks.len()
            invariant
                i <= self.metadata_blocks@.len(),
                out@.map_values(|v: Vec<u8>| v@) == pictures_of(self.metadata_blocks@.subrange(0, i as int)),
            decreases self.metadata_blocks@.len() - i,
        {
            proof {
                assert(self.metadata_blocks@.subrange(0, i + 1).drop_last() =~= self.metadata_blocks@.subrange(0, i as int));
            }
            if let Some(p) = self.metadata_blocks[i].as_picture_block() {
                out.push(p.get_picture_data().clone());
            }
            i = i + 1;
            assert(out@.map_values(|v: Vec<u8>| v@) =~= pictures_of(self.metadata_blocks@.subrange(0, i as int)));
        }
        assert(self.metadata_blocks@.subrange(0, self.metadata_blocks@.len() as int) =~= self.metadata_blocks@);
        out
    }

    /// Adds a picture block, placed as `add_block` places blocks; the tag is left unchanged
    /// when the picture does not fit in a block.
    pub fn add_picture(
        &mut self,
        picture_type: PictureType,
        mime_type: &str,
        description: Option<&str>,
        picture_width: u32,
        picture_height: u32,
        color_depth: u32,
        number_color_used: Option<u32>,
        picture_data: &Vec<u8>,
    )
        requires
            old(self).wf(),
        ensures
            final(self).wf(),
            same_but_flag(final(self).stream_info, old(self).stream_info),
            final(self).music_data == old(self).music_data,
            picture_fits("image/"@ + mime_type@, opt_str(description), picture_data@.len()) ==> exists|b: FlacMetadataBlock|
                #[trigger] inserted(old(self).metadata_blocks@, final(self).metadata_blocks@, b)
                    && (b.data matches FlacMetadataBlockData::PICTURE(p) && p.pict_data@ == picture_data@),
            !picture_fits("image/"@ + mime_type@, opt_str(description), picture_data@.len())
                ==> final(self).metadata_blocks@ == old(self).metadata_blocks@,
    {
        let p = PictureBlock::new(
            picture_type,
            mime_type,
            description,
            picture_width,
            picture_height,
            color_depth,
            number_color_used,
            picture_data,
        );
        proof {
            lemma_picture_len(p);
        }
        if p.mime_type.as_str().as_bytes().len() as u64 >= 0x1_0000_0000u64
            || p.description.as_str().as_bytes().len() as u64 >= 0x1_0000_0000u64
            || p.pict_data.len() as u64 >= 0x1_0000_0000u64 {
            return ;
        }
        let ghost pd = p.pict_data@;
        proof {
            lemma_picture_len(p);
        }
        match FlacMetadataBlock::new_picture_block(p) {
            Some(b) => {
                let ghost bb = b;
                self.add_block(b);
                assert(inserted(old(self).metadata_blocks@, self.metadata_blocks@, bb));
            },
            None => {},
        }
    }
}

/// The block is not a picture.
pub open spec fn not_picture() -> spec_fn(FlacMetadataBlock) -> bool {
    |b: FlacMetadataBlock| b.block_type != FlacMetadataBlockType::PICTURE
}

impl FlacTag {
    /// Removes every picture block; the final remaining block takes the last-block flag.
    pub fn remove_all_pictures(&mut self)
        requires
            old(self).wf(),
        ensures
            final(self).wf(),
            same_but_flag(final(self).stream_info, old(self).stream_info),
            final(self).music_data == old(self).music_data,
            final(self).metadata_blocks@.len() == old(self).metadata_blocks@.filter(not_picture()).len(),
            forall|i: int|
                0 <= i < final(self).metadata_blocks@.len() ==> same_but_flag(
                    #[trigger] final(self).metadata_blocks@[i],
                    old(self).metadata_blocks@.filter(not_picture())[i],
                ),
    {
        let ghost all = self.metadata_blocks@;
        proof {
            assert forall|i: int| 0 <= i < all.len() implies #[trigger] all[i].wf() by {}
        }
        let mut rest: Vec<FlacMetadataBlock> = Vec::new();
        std::mem::swap(&mut rest, &mut self.metadata_blocks);
        let n = rest.len();
        let mut idx: usize = 0;
        assert(all.subrange(0, 0).filter(not_picture()) =~= Seq::<FlacMetadataBlock>::empty()) by {
            reveal(Seq::filter);
        }
        while rest.len() > 0
            invariant
                n == all.len(),
                idx + rest@.len() == n,
                rest@ == all.subrange(idx as int, n as int),
                self.metadata_blocks@.len() == all.subrange(0, idx as int).filter(not_picture()).len(),
                forall|i: int|
                    0 <= i < self.metadata_blocks@.len() ==> same_but_flag(
                        #[trigger] self.metadata_blocks@[i],
                        all.subrange(0, idx as int).filter(not_picture())[i],
                    ),
                forall|i: int| 0 <= i < self.metadata_blocks@.len() ==> !(#[trigger] self.metadata_blocks@[i]).is_last_block,
                forall|i: int| 0 <= i < all.len() ==> #[trigger] all[i].wf(),
                forall|i: int| 0 <= i < all.len() ==> (#[trigger] all[i]).block_type != FlacMetadataBlockType::STREAMINFO,
                self.stream_info == old(self).stream_info,
                self.music_data == old(self).music_data,
            decreases rest@.len(),
        {
            let mut b = rest.remove(0);
            proof {
                assert(b == all[idx as int]);
                assert(all.subrange(0, idx + 1) =~= all.subrange(0, idx as int).push(b));
                all.subrange(0, idx as int).lemma_filter_push(b, not_picture());
            }
            if b.block_type != FlacMetadataBlockType::PICTURE {
                b.set_last(false);
                self.metadata_blocks.push(b);
            } else {
                assert(!not_picture()(b));
            }
            idx = idx + 1;
            assert(rest@ =~= all.subrange(idx as int, n as int));
        }
        proof {
            assert(all.subrange(0, n as int) =~= all);
        }
        let m = self.metadata_blocks.len();
        let ghost before = self.metadata_blocks@;
        if m == 0 {
            self.stream_info.set_last(true);
        } else {
            let mut b = self.metadata_blocks.pop().unwrap();
            b.set_last(true);
            self.metadata_blocks.push(b);
            assert(forall|i: int| 0 <= i < m - 1 ==> self.metadata_blocks@[i] == before[i]);
        }
        if m > 0 {
            self.stream_info.set_last(false);
        }
        proof {
            let f = all.filter(not_picture());
            let nd = self.metadata_blocks@;
            assert forall|i: int| 0 <= i < nd.len() implies #[trigger] nd[i].wf() && nd[i].block_type
                != FlacMetadataBlockType::STREAMINFO by {
                all.lemma_filter_contains_rev(not_picture(), f[i]);
                let j = choose|j: int| 0 <= j < all.len() && all[j] == f[i];
                assert(all[j].wf());
                assert(all[j].block_type != FlacMetadataBlockType::STREAMINFO);
                assert(same_but_flag(nd[i], f[i])) by {
                    if i < m - 1 {
                        assert(nd[i] == before[i]);
                    }
                }
            }
            assert forall|i: int| 0 <= i < nd.len() implies same_but_flag(#[trigger] nd[i], f[i]) by {
                if i < m - 1 {
                    assert(nd[i] == before[i]);
                }
            }
            assert forall|j: int| 0 <= j < self.chain().len() implies (#[trigger] self.chain()[j].is_last_block
                <==> j == self.chain().len() - 1) by {
                if j > 0 {
                    assert(self.chain()[j] == nd[j - 1]);
                    if j - 1 < m - 1 {
                        assert(nd[j - 1] == before[j - 1]);
                    }
                } else {
                    assert(self.chain()[0] == self.stream_info);
                }
            }
            assert forall|i: int| 0 <= i < nd.len() implies #[trigger] nd[i].wf() by {}
            assert forall|i: int| 0 <= i < nd.len() implies (#[trigger] nd[i]).block_type
                != FlacMetadataBlockType::STREAMINFO by {
                assert(nd[i].wf());
            }
            assert(self.stream_info.wf());
            assert(last_flag_ok(self.chain()));
        }
    }
}

} // verus!
