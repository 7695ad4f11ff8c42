//! Reading and writing of audio metadata: ID3v2.3 tags and FLAC metadata-block chains.
//!
//! Both containers are decoded from an in-memory byte buffer into a typed model, edited, and
//! encoded back; every size and length field is recomputed from the content.
use vstd::prelude::*;

pub mod bytes;
pub mod text;
pub mod id3_frameid;
pub mod id3_frame_value;
pub mod id3_frame;
pub mod id3_tag;
pub mod id3_tag_builder;
pub mod tag_error;
pub mod format;
pub mod vorbis;
pub mod flac_block_data;
pub mod flac_block;
pub mod flac_tag;

pub use crate::id3_tag_builder::ID3TagBuilder;
pub use crate::tag_error::TagError;
pub use crate::id3_frameid::ID3TEXTFRAMEID;
pub use crate::format::{PictureFormat, AudioFormat};
pub use crate::flac_tag::FlacTag;
pub use crate::id3_frame_value::PictureType;
pub use crate::id3_tag::ID3TAG;
pub use crate::text::TextEncoding;
pub use crate::flac_block_data::SeekPoint;

verus! {

} // verus!
