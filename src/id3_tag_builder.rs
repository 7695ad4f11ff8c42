//! Building an ID3v2.3 tag from scratch.
use vstd::prelude::*;
use crate::id3_tag::{ID3TAG, text_set_done, removed, position_string, position_text};
use crate::id3_frameid::ID3TEXTFRAMEID;
use crate::id3_frame_value::PictureType;
use crate::format::{PictureFormat, decimal_of, signed_decimal_of, u16_to_string, i16_to_string};
use crate::tag_error::TagError;

verus! {

/// Builds an ID3v2.3 tag, starting from an empty one with 10 000 bytes of padding.
pub struct ID3TagBuilder {
    pub id3_tag: ID3TAG,
}

impl ID3TagBuilder {
    pub open spec fn wf(&self) -> bool {
        self.id3_tag.wf()
    }

    /// A builder holding an empty tag.
    pub fn new() -> (r: ID3TagBuilder)
        ensures
            r.wf(),
            r.id3_tag.frames@.len() == 0,
            r.id3_tag.padding == 10_000,
            r.id3_tag.size == 10_010,
            r.id3_tag.flags == 0,
            r.id3_tag.minor_version == 0,
            r.id3_tag.music_data@.len() == 0,
    {
        ID3TagBuilder { id3_tag: ID3TAG::new_empty_tag() }
    }

    /// Sets a text frame, replacing its text if it exists.
    pub fn add_text_frame(&mut self, frame_id: ID3TEXTFRAMEID, content: &str) -> (r: &mut ID3TagBuilder)
        requires
            old(self).wf(),
        ensures
            text_set_done(old(self).id3_tag, r.id3_tag, frame_id.code_spec(), content@),
    {
        self.id3_tag.set_text_frame(frame_id.code(), content);
        self
    }

    /// Removes every frame of a text kind.
    pub fn remove_text_frame(&mut self, frame_id: ID3TEXTFRAMEID) -> (r: &mut ID3TagBuilder)
        requires
            old(self).wf(),
        ensures
            removed(old(self).id3_tag, r.id3_tag, frame_id.code_spec()),
    {
        self.id3_tag.remove_frames(frame_id.code());
        self
    }

    /// Sets the song artist (TPE1).
    pub fn set_artist(&mut self, content: &str) -> (r: &mut ID3TagBuilder)
        requires
            old(self).wf(),
        ensures
            text_set_done(old(self).id3_tag, r.id3_tag, ID3TEXTFRAMEID::TPE1.code_spec(), content@),
    {
        self.add_text_frame(ID3TEXTFRAMEID::TPE1, content)
    }

    /// Sets the album's artist (TPE2).
    pub fn set_album_artist(&mut self, content: &str) -> (r: &mut ID3TagBuilder)
        requires
            old(self).wf(),
        ensures
            text_set_done(old(self).id3_tag, r.id3_tag, ID3TEXTFRAMEID::TPE2.code_spec(), content@),
    {
        self.add_text_frame(ID3TEXTFRAMEID::TPE2, content)
    }

    /// Sets the album name (TALB).
    pub fn set_album(&mut self, content: &str) -> (r: &mut ID3TagBuilder)
        requires
            old(self).wf(),
        ensures
            text_set_done(old(self).id3_tag, r.id3_tag, ID3TEXTFRAMEID::TALB.code_spec(), content@),
    {
        self.add_text_frame(ID3TEXTFRAMEID::TALB, content)
    }

    /// Sets the genre (TCON).
    pub fn set_genre(&mut self, content: &str) -> (r: &mut ID3TagBuilder)
        requires
            old(self).wf(),
        ensures
            text_set_done(old(self).id3_tag, r.id3_tag, ID3TEXTFRAMEID::TCON.code_spec(), content@),
    {
        self.add_text_frame(ID3TEXTFRAMEID::TCON, content)
    }

    /// Sets the publisher (TPUB).
    pub fn set_publisher(&mut self, content: &str) -> (r: &mut ID3TagBuilder)
        requires
            old(self).wf(),
        ensures
            text_set_done(old(self).id3_tag, r.id3_tag, ID3TEXTFRAMEID::TPUB.code_spec(), content@),
    {
        self.add_text_frame(ID3TEXTFRAMEID::TPUB, content)
    }

    /// Sets the composers (TCOM).
    pub fn set_composers(&mut self, content: &str) -> (r: &mut ID3TagBuilder)
        requires
            old(self).wf(),
        ensures
            text_set_done(old(self).id3_tag, r.id3_tag, ID3TEXTFRAMEID::TCOM.code_spec(), content@),
    {
        self.add_text_frame(ID3TEXTFRAMEID::TCOM, content)
    }

    /// Sets the encoder (TENC).
    pub fn set_encoder(&mut self, content: &str) -> (r: &mut ID3TagBuilder)
        requires
            old(self).wf(),
        ensures
            text_set_done(old(self).id3_tag, r.id3_tag, ID3TEXTFRAMEID::TENC.code_spec(), content@),
    {
        self.add_text_frame(ID3TEXTFRAMEID::TENC, content)
    }

    /// Sets the title (TIT2).
    pub fn set_title(&mut self, content: &str) -> (r: &mut ID3TagBuilder)
        requires
            old(self).wf(),
        ensures
            text_set_done(old(self).id3_tag, r.id3_tag, ID3TEXTFRAMEID::TIT2.code_spec(), content@),
    {
        self.add_text_frame(ID3TEXTFRAMEID::TIT2, content)
    }

    /// Sets the beats per minute (TBPM), in decimal.
    pub fn set_bpm(&mut self, content: u16) -> (r: &mut ID3TagBuilder)
        requires
            old(self).wf(),
        ensures
            text_set_done(old(self).id3_tag, r.id3_tag, ID3TEXTFRAMEID::TBPM.code_spec(), decimal_of(content as nat)),
    {
        let s = u16_to_string(content);
        self.add_text_frame(ID3TEXTFRAMEID::TBPM, s.as_str())
    }

    /// Sets the year (TYER), in decimal.
    pub fn set_year(&mut self, content: i16) -> (r: &mut ID3TagBuilder)
        requires
            old(self).wf(),
        ensures
            text_set_done(old(self).id3_tag, r.id3_tag, ID3TEXTFRAMEID::TYER.code_spec(), signed_decimal_of(content as int)),
    {
        let s = i16_to_string(content);
        self.add_text_frame(ID3TEXTFRAMEID::TYER, s.as_str())
    }

    /// Sets the track position (TRCK): "n", or "n/total".
    pub fn set_track_position(&mut self, track_pos: u16, out_of: Option<u16>) -> (r: &mut ID3TagBuilder)
        requires
            old(self).wf(),
        ensures
            text_set_done(old(self).id3_tag, r.id3_tag, ID3TEXTFRAMEID::TRCK.code_spec(), position_text(track_pos, out_of)),
    {
        let s = position_string(track_pos, out_of);
        self.add_text_frame(ID3TEXTFRAMEID::TRCK, s.as_str())
    }

    /// Sets the disc position (TPOS): "n", or "n/total".
    pub fn set_disc(&mut self, disc: u16, out_of: Option<u16>) -> (r: &mut ID3TagBuilder)
        requires
            old(self).wf(),
        ensures
            text_set_done(old(self).id3_tag, r.id3_tag, ID3TEXTFRAMEID::TPOS.code_spec(), position_text(disc, out_of)),
    {
        let s = position_string(disc, out_of);
        self.add_text_frame(ID3TEXTFRAMEID::TPOS, s.as_str())
    }

    /// Adds unsynchronised lyrics; fails as `ID3TAG::add_lyrics` does.
    pub fn add_lyrics(&mut self, lang: &str, description: Option<String>, text: String) -> (r: Result<&mut ID3TagBuilder, TagError>)
        requires
            old(self).wf(),
        ensures
            r matches Ok(b) ==> b.wf() && b.id3_tag.frames@.len() == old(self).id3_tag.frames@.len() + 1,
            r is Err ==> final(self).id3_tag.frames@ == old(self).id3_tag.frames@ && final(self).wf(),
            (r == Err::<&mut ID3TagBuilder, TagError>(TagError::LangWrongSize)) <==> !crate::id3_tag::lang_code_ok(lang@),
    {
        match self.id3_tag.add_lyrics(lang, description, text) {
            Ok(_) => Ok(self),
            Err(e) => Err(e),
        }
    }

    /// Adds a comment; fails as `ID3TAG::add_comment` does.
    pub fn add_comment(&mut self, lang: &str, description: Option<String>, text: String) -> (r: Result<&mut ID3TagBuilder, TagError>)
        requires
            old(self).wf(),
        ensures
            r matches Ok(b) ==> b.wf() && b.id3_tag.frames@.len() == old(self).id3_tag.frames@.len() + 1,
            r is Err ==> final(self).id3_tag.frames@ == old(self).id3_tag.frames@ && final(self).wf(),
            (r == Err::<&mut ID3TagBuilder, TagError>(TagError::LangWrongSize)) <==> !crate::id3_tag::lang_code_ok(lang@),
    {
        match self.id3_tag.add_comment(lang, description, text) {
            Ok(_) => Ok(self),
            Err(e) => Err(e),
        }
    }

    /// Adds an attached picture (APIC), when the tag can hold it.
    pub fn add_picture(
        &mut self,
        picture_data: &Vec<u8>,
        image_format: PictureFormat,
        picture_type: Option<PictureType>,
        description: Option<String>,
    ) -> (r: &mut ID3TagBuilder)
        requires
            old(self).wf(),
        ensures
            r.wf(),
            r.id3_tag.same_header(&old(self).id3_tag),
            r.id3_tag.frames@ == old(self).id3_tag.frames@ || r.id3_tag.frames@.len() == old(self).id3_tag.frames@.len() + 1,
    {
        let _ = self.id3_tag.add_picture(image_format, picture_data, picture_type, description);
        self
    }

    /// The bytes of the tag built so far.
    pub fn as_bytes(&self) -> (r: Vec<u8>)
        requires
            self.wf(),
        ensures
            r@ == self.id3_tag.bytes(),
    {
        self.id3_tag.as_bytes()
    }
}

} // verus!
