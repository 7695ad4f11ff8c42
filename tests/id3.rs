use tag_edit::bytes::{decode_u24, encode_u24, synchsafe, unsynchsafe};
use tag_edit::id3_frame_value::{decode_frame_value, FrameValue, UserInfoFrame};
use tag_edit::TextEncoding;
use tag_edit::id3_frameid::{TXXX, COMM};
use tag_edit::{ID3TagBuilder, PictureFormat, TagError, ID3TAG, ID3TEXTFRAMEID};

fn minimal_tag() -> Vec<u8> {
    let mut b = b"ID3".to_vec();
    b.extend_from_slice(&[3, 0, 0]);
    b.extend_from_slice(&[0, 0, 0, 0x1a]);
    b.extend_from_slice(b"TIT2");
    b.extend_from_slice(&[0, 0, 0, 6]);
    b.extend_from_slice(&[0, 0]);
    b.push(0x00);
    b.extend_from_slice(b"title");
    b
}

fn frame_sizes(t: &ID3TAG) -> u32 {
    t.frames.iter().map(|f| f.size).sum()
}

#[test]
fn minimal_tag_reads_title_and_writes_back() {
    let b = minimal_tag();
    let t = ID3TAG::from_bytes(&b).unwrap();
    assert_eq!(t.title(), Some("title".to_string()));
    assert_eq!(t.frames.len(), 1);
    assert_eq!(t.padding, 0);
    assert_eq!(t.as_bytes(), b);
}

#[test]
fn header_errors() {
    assert_eq!(ID3TAG::from_bytes(&[0u8; 5]).err(), Some(TagError::TruncatedInput));
    let mut b = minimal_tag();
    b[0] = b'X';
    assert_eq!(ID3TAG::from_bytes(&b).err(), Some(TagError::ID3TagNotFound));
    let mut b = minimal_tag();
    b[3] = 4;
    assert_eq!(ID3TAG::from_bytes(&b).err(), Some(TagError::UnsupportedVersion));
    let mut b = minimal_tag();
    b[9] = 0x7f;
    assert_eq!(ID3TAG::from_bytes(&b).err(), Some(TagError::TruncatedInput));
}

#[test]
fn padding_and_audio_are_kept() {
    let mut b = minimal_tag();
    b[9] = 0x1a + 20;
    b.extend_from_slice(&[0u8; 20]);
    b.extend_from_slice(&[1, 2, 3]);
    let t = ID3TAG::from_bytes(&b).unwrap();
    assert_eq!(t.padding, 20);
    assert_eq!(t.music_data, vec![1, 2, 3]);
    assert_eq!(t.as_bytes(), b);
}

#[test]
fn sizes_follow_mutation() {
    let mut t = ID3TAG::from_bytes(&minimal_tag()).unwrap();
    t.set_title("a much longer title than before");
    t.set_artist("Artist");
    t.set_album("Album");
    assert_eq!(t.total_size(), 10 + t.padding + frame_sizes(&t));
    for f in t.frames.iter() {
        assert_eq!(f.size as usize, 10 + f.value.raw_size());
    }
    assert_eq!(t.title(), Some("a much longer title than before".to_string()));
    let again = ID3TAG::from_bytes(&t.as_bytes()).unwrap();
    assert_eq!(again.artist(), Some("Artist".to_string()));
    assert_eq!(again.album(), Some("Album".to_string()));
    assert_eq!(again.total_size(), t.total_size());
}

#[test]
fn non_ascii_text_uses_utf16() {
    let mut t = ID3TagBuilder::new().id3_tag;
    t.set_title("刹那の果実");
    let again = ID3TAG::from_bytes(&t.as_bytes()).unwrap();
    assert_eq!(again.title(), Some("刹那の果実".to_string()));
    let raw = again.frames[0].value.raw_bytes();
    assert_eq!(raw[0], 1);
    assert_eq!(raw.len(), 1 + 2 * 5);
}

#[test]
fn numbers_as_text() {
    let mut t = ID3TagBuilder::new().id3_tag;
    t.set_bpm(100);
    t.set_year(2015);
    t.set_track_position(2, Some(15));
    t.set_disc(1, None);
    assert_eq!(t.bpm(), Some("100".to_string()));
    assert_eq!(t.year(), Some(2015));
    assert_eq!(t.track_position(), Some("2/15".to_string()));
    assert_eq!(t.disc(), Some("1".to_string()));
    t.remove_year();
    assert_eq!(t.year(), None);
    t.remove_bpm();
    assert_eq!(t.bpm(), None);
}

#[test]
fn comments_and_lyrics() {
    let mut t = ID3TagBuilder::new().id3_tag;
    assert_eq!(t.add_comment("en", None, "x".to_string()), Err(TagError::LangWrongSize));
    assert_eq!(t.add_comment("eng", None, "A random comment".to_string()), Ok(()));
    assert_eq!(
        t.add_comment("eng", None, "another".to_string()),
        Err(TagError::ReusedLangDescription)
    );
    assert_eq!(t.add_comment("eng", Some("d".to_string()), "another".to_string()), Ok(()));
    assert_eq!(t.add_lyrics("eng", None, "Some Lyrics".to_string()), Ok(()));
    assert_eq!(t.comments()[0].1, "A random comment");
    assert_eq!(t.comments()[1], ("d".to_string(), "another".to_string()));
    assert_eq!(t.lyrics(), vec!["Some Lyrics".to_string()]);
    let again = ID3TAG::from_bytes(&t.as_bytes()).unwrap();
    assert_eq!(again.comments().len(), 2);
    assert_eq!(again.lyrics(), vec!["Some Lyrics".to_string()]);
    t.remove_all_comments();
    assert!(t.comments().is_empty());
    t.remove_all_lyrics();
    assert!(t.lyrics().is_empty());
    assert!(t.frames.iter().all(|f| f.frame_id != COMM));
}

#[test]
fn pictures() {
    let mut t = ID3TagBuilder::new().id3_tag;
    assert!(t.add_picture(PictureFormat::JPEG, &vec![1, 2, 3, 0, 5], None, Some("cover".to_string())));
    assert_eq!(t.attached_pictures(), vec![vec![1u8, 2, 3, 0, 5]]);
    let again = ID3TAG::from_bytes(&t.as_bytes()).unwrap();
    assert_eq!(again.attached_pictures(), vec![vec![1u8, 2, 3, 0, 5]]);
    t.remove_all_attached_pictures();
    assert!(t.attached_pictures().is_empty());
}

#[test]
fn mime_strings() {
    assert_eq!(PictureFormat::PNG.to_mime_string(), "image/png");
    assert_eq!(PictureFormat::OTHER("gif".to_string()).to_mime_string(), "image/gif");
}

#[test]
fn synchsafe_values() {
    assert_eq!(synchsafe(0x0fff_ffff), 0x7f7f_7f7f);
    assert_eq!(synchsafe(0x80), 0x0100);
    assert_eq!(unsynchsafe(0x7f7f_7f7f), 0x0fff_ffff);
    for x in [0u32, 1, 127, 128, 10_010, 0x0123_4567, 0x0fff_ffff] {
        assert_eq!(unsynchsafe(synchsafe(x)), x);
    }
}

#[test]
fn u24_values() {
    assert_eq!(encode_u24(0x12_3456), [0x12, 0x34, 0x56]);
    assert_eq!(encode_u24(0x1_00_0001), [0, 0, 1]);
    for x in [0u32, 1, 255, 256, 0xff_ffff] {
        assert_eq!(decode_u24(encode_u24(x)), x);
    }
}

#[test]
fn utf16_keeps_code_unit_00ff() {
    // TXXX: UTF-16 LE, description "ÿA" (FF 00 41 00), terminator, text "B".
    let b = vec![1u8, 0xff, 0x00, 0x41, 0x00, 0x00, 0x00, 0x42, 0x00];
    let v = decode_frame_value(&b, 0, b.len(), TXXX).unwrap();
    match &v {
        FrameValue::UserText(f) => {
            assert_eq!(f.description, "ÿA");
            assert_eq!(f.text, "B");
        }
        _ => panic!("not a user text frame"),
    }
    assert_eq!(v.raw_bytes(), b);
}

#[test]
fn frame_values_round_trip() {
    let t = ID3TEXTFRAMEID::TIT2.code();
    for b in [vec![0u8], vec![0u8, b'a', b'b'], vec![3u8, 0xc3, 0xa9], vec![2u8, 0x00, 0xff]] {
        let v = decode_frame_value(&b, 0, b.len(), t).unwrap();
        assert_eq!(v.raw_bytes(), b);
    }
    let unknown = u32::from_be_bytes(*b"ZZZZ");
    let v = decode_frame_value(&[9, 9, 0], 0, 3, unknown).unwrap();
    assert!(matches!(v, FrameValue::Undefined(_)));
    assert!(decode_frame_value(&[7u8, 1], 0, 2, t).is_none());
    assert!(decode_frame_value(&[1u8, 0x41], 0, 2, t).is_none());
}

#[test]
fn tag_builder() {
    let mut builder = ID3TagBuilder::new();
    builder
        .set_title("刹那の果実")
        .set_artist("黒崎真音")
        .set_album("Mystical Flower")
        .add_text_frame(ID3TEXTFRAMEID::TYER, "2015")
        .set_disc(1, Some(1))
        .set_track_position(2, Some(15))
        .add_picture(&vec![0xff, 0xd8, 0xff], PictureFormat::JPEG, None, None);
    let metadata = ID3TAG::from_bytes(&builder.as_bytes()).unwrap();
    assert_eq!(metadata.album(), Some("Mystical Flower".to_string()));
    assert_eq!(metadata.year(), Some(2015));
    assert_eq!(metadata.disc(), Some("1/1".to_string()));
}

#[test]
fn mp3tag() {
    let mut dark_seek_light = ID3TAG::from_bytes(&minimal_tag()).unwrap();
    dark_seek_light.set_album("An album of Yui ninomiya");
    dark_seek_light.set_title("Tesla Note Opening");
    dark_seek_light.set_artist("Yui ninomiya");
    let bytes = dark_seek_light.as_bytes();
    let again = ID3TAG::from_bytes(&bytes).unwrap();
    assert_eq!(again.title(), Some("Tesla Note Opening".to_string()));
    assert_eq!(again.album(), Some("An album of Yui ninomiya".to_string()));
    assert_eq!(again.artist(), Some("Yui ninomiya".to_string()));
}

#[test]
fn terminated_fields_end_with_one_terminator() {
    let plain = FrameValue::UserText(UserInfoFrame {
        text_encoding: TextEncoding::Iso8859_1,
        description: "ab".to_string(),
        text: "c".to_string(),
    });
    assert_eq!(plain.raw_bytes(), vec![0, b'a', b'b', 0, b'c']);
    let ended = FrameValue::UserText(UserInfoFrame {
        text_encoding: TextEncoding::Iso8859_1,
        description: "ab\0".to_string(),
        text: "c".to_string(),
    });
    assert_eq!(ended.raw_bytes(), vec![0, b'a', b'b', 0, b'c']);
    let wide = FrameValue::UserText(UserInfoFrame {
        text_encoding: TextEncoding::UnicodeBigEndian,
        description: "a".to_string(),
        text: "b".to_string(),
    });
    assert_eq!(wide.raw_bytes(), vec![2, 0, b'a', 0, 0, 0, b'b']);
}

#[test]
fn language_must_be_three_ascii_characters() {
    let mut t = ID3TagBuilder::new().id3_tag;
    assert_eq!(t.add_comment("éa", None, "x".to_string()), Err(TagError::LangWrongSize));
    assert_eq!(t.add_lyrics("éa", None, "x".to_string()), Err(TagError::LangWrongSize));
    assert_eq!(t.add_lyrics("fra", Some("d".to_string()), "x".to_string()), Ok(()));
    assert_eq!(
        t.add_lyrics("fra", Some("d".to_string()), "y".to_string()),
        Err(TagError::ReusedLangDescription)
    );
    assert!(t.frames.len() == 1);
}

#[test]
fn set_text_frame_takes_the_first_frame_with_the_identifier() {
    let mut t = ID3TagBuilder::new().id3_tag;
    t.set_title("a");
    t.set_title("b");
    assert_eq!(t.frames.len(), 1);
    assert_eq!(t.title(), Some("b".to_string()));
}
