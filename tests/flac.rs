use tag_edit::flac_block_data::{FlacMetadataBlockData, FlacMetadataBlockType};
use tag_edit::{FlacTag, PictureType, TagError};

fn stream_info(last: bool) -> Vec<u8> {
    let mut b = vec![if last { 0x80 } else { 0x00 }, 0, 0, 34];
    b.extend_from_slice(&[0x10, 0x00, 0x10, 0x00]);
    b.extend_from_slice(&[0, 0, 0x0e, 0, 0x3a, 0x5c]);
    b.extend_from_slice(&[0x0a, 0xc4, 0x42, 0xf0, 0x00, 0x0b, 0x1d, 0x80]);
    b.extend_from_slice(&[7u8; 16]);
    b
}

fn vorbis_block(last: bool, pairs: &[&str]) -> Vec<u8> {
    let mut payload = vec![0u8, 0, 0, 0];
    payload.extend_from_slice(&(pairs.len() as u32).to_le_bytes());
    for p in pairs {
        payload.extend_from_slice(&(p.len() as u32).to_le_bytes());
        payload.extend_from_slice(p.as_bytes());
    }
    let n = payload.len() as u32;
    let mut b = vec![if last { 0x84 } else { 0x04 }];
    b.extend_from_slice(&n.to_be_bytes()[1..]);
    b.extend_from_slice(&payload);
    b
}

fn padding_block(last: bool, n: usize) -> Vec<u8> {
    let mut b = vec![if last { 0x81 } else { 0x01 }, 0, 0, n as u8];
    b.extend_from_slice(&vec![0u8; n]);
    b
}

fn scenario() -> Vec<u8> {
    let mut b = b"fLaC".to_vec();
    b.extend_from_slice(&stream_info(false));
    b.extend_from_slice(&vorbis_block(true, &["ARTIST=X"]));
    b.extend_from_slice(&[0xff, 0xf8, 0x01]);
    b
}

/// Walks the block headers of an encoded chain: (last flag, type, length).
fn headers(bytes: &[u8]) -> Vec<(bool, u8, usize)> {
    let mut out = vec![];
    let mut pos = 4;
    loop {
        let h = bytes[pos];
        let len = ((bytes[pos + 1] as usize) << 16) | ((bytes[pos + 2] as usize) << 8) | bytes[pos + 3] as usize;
        out.push((h & 0x80 != 0, h & 0x7f, len));
        pos += 4 + len;
        if h & 0x80 != 0 {
            break;
        }
    }
    out
}

#[test]
fn scenario_reads_artist_and_keeps_flags() {
    let b = scenario();
    let mut t = FlacTag::from_bytes(&b).unwrap();
    assert_eq!(t.artist(), Some("X".to_string()));
    assert_eq!(t.as_bytes(), b);
    t.set_title("A title");
    let out = t.as_bytes();
    let hs = headers(&out);
    assert_eq!(hs.len(), 2);
    assert_eq!(hs[1].1, 4);
    assert!(hs[1].0);
    assert!(!hs[0].0);
    let vorbis_len = t.metadata_blocks[0].data.raw_size();
    assert_eq!(hs[1].2, vorbis_len);
    assert_eq!(out[out.len() - 3..], [0xff, 0xf8, 0x01]);
    let again = FlacTag::from_bytes(&out).unwrap();
    assert_eq!(again.title(), Some("A title".to_string()));
    assert_eq!(again.artist(), Some("X".to_string()));
}

#[test]
fn vorbis_multi_values() {
    let mut t = FlacTag::from_bytes(&scenario()).unwrap();
    t.remove_artist();
    assert_eq!(t.artist(), None);
    t.add_artist("a");
    t.add_artist("b");
    assert_eq!(t.artist(), Some("a,b".to_string()));
    t.add_artist("a");
    assert_eq!(t.artist(), Some("a,b".to_string()));
    let again = FlacTag::from_bytes(&t.as_bytes()).unwrap();
    assert_eq!(again.artist(), Some("a,b".to_string()));
    t.set_artist("c");
    assert_eq!(t.artist(), Some("c".to_string()));
    t.set_custom_field("artist", "x");
    assert_eq!(t.artist(), Some("x".to_string()));
    assert_eq!(t.get_custom_field("Artist"), Some("x".to_string()));
}

#[test]
fn comment_count_is_pair_count() {
    let mut t = FlacTag::from_bytes(&scenario()).unwrap();
    t.add_artist("Y");
    t.add_artist("Z");
    let out = t.as_bytes();
    // Vorbis payload: vendor length 0, then the comment count.
    let start = 4 + 4 + 34 + 4 + 4;
    assert_eq!(u32::from_le_bytes([out[start], out[start + 1], out[start + 2], out[start + 3]]), 3);
}

#[test]
fn numbers_and_removal() {
    let mut t = FlacTag::from_bytes(&scenario()).unwrap();
    t.set_disc(1);
    t.set_total_disc(2);
    t.set_track_position(3);
    t.set_total_track(12);
    t.set_bpm(128);
    assert_eq!(t.disc(), Some("1".to_string()));
    assert_eq!(t.total_disc(), Some("2".to_string()));
    assert_eq!(t.track_position(), Some("3".to_string()));
    assert_eq!(t.total_track(), Some("12".to_string()));
    t.remove_disc();
    assert_eq!(t.disc(), None);
}

#[test]
fn insertion_keeps_padding_last() {
    let mut b = b"fLaC".to_vec();
    b.extend_from_slice(&stream_info(false));
    b.extend_from_slice(&padding_block(true, 8));
    let mut t = FlacTag::from_bytes(&b).unwrap();
    assert_eq!(t.as_bytes(), b);
    t.set_title("t");
    t.add_picture(PictureType::CoverFront, "png", None, 1, 1, 24, None, &vec![0x89, 0x50]);
    let hs = headers(&t.as_bytes());
    let types: Vec<u8> = hs.iter().map(|h| h.1).collect();
    assert_eq!(types, vec![0, 4, 6, 1]);
    assert_eq!(hs.iter().filter(|h| h.0).count(), 1);
    assert!(hs[3].0);
    assert_eq!(t.pictures(), vec![vec![0x89u8, 0x50]]);
}

#[test]
fn insertion_without_padding_moves_last_flag() {
    let mut b = b"fLaC".to_vec();
    b.extend_from_slice(&stream_info(true));
    let mut t = FlacTag::from_bytes(&b).unwrap();
    assert!(t.metadata_blocks.is_empty());
    t.set_album("Album");
    let hs = headers(&t.as_bytes());
    assert_eq!(hs.len(), 2);
    assert!(!hs[0].0 && hs[1].0);
    assert_eq!(t.metadata_blocks[0].block_type, FlacMetadataBlockType::VORBISCOMMENT);
}

#[test]
fn errors() {
    assert_eq!(FlacTag::from_bytes(b"ID3").err(), Some(TagError::FlacTagNotFound));
    let mut b = b"fLaC".to_vec();
    b.extend_from_slice(&stream_info(false));
    b.extend_from_slice(&[0x87, 0, 0, 0]);
    assert_eq!(FlacTag::from_bytes(&b).err(), Some(TagError::UnknownBlockType));
    assert_eq!(FlacTag::from_bytes(b"fLaC").err(), Some(TagError::TruncatedInput));
}

#[test]
fn flac_read() {
    let mut flactag = FlacTag::from_bytes(&scenario()).unwrap();
    flactag.add_genre("An Junne Genre");
    flactag.set_album("An Junna Album : 20x20");
    flactag.add_picture(PictureType::CoverFront, "jpeg", None, 1000, 867, 24, None, &vec![1, 2, 3]);
    let again = FlacTag::from_bytes(&flactag.as_bytes()).unwrap();
    assert_eq!(again.genre(), Some("An Junne Genre".to_string()));
    assert_eq!(again.album(), Some("An Junna Album : 20x20".to_string()));
    assert_eq!(again.pictures(), vec![vec![1u8, 2, 3]]);
}


fn round_trip(t: FlacMetadataBlockType, payload: &[u8]) -> Vec<u8> {
    let d = FlacMetadataBlockData::decode(payload, 0, payload.len(), t).unwrap();
    d.raw_bytes()
}

#[test]
fn block_payloads_round_trip() {
    let si = &stream_info(false)[4..];
    assert_eq!(round_trip(FlacMetadataBlockType::STREAMINFO, si), si.to_vec());
    let mut seek = vec![];
    for k in 0u8..3 {
        seek.extend_from_slice(&[0, 0, 0, 0, 0, 0, 0, k, 0, 0, 0, 0, 0, 1, 0, k, 0x10, 0x00]);
    }
    assert_eq!(round_trip(FlacMetadataBlockType::SEEKTABLE, &seek), seek);
    assert!(FlacMetadataBlockData::decode(&seek, 0, 17, FlacMetadataBlockType::SEEKTABLE).is_none());
    let app = b"RIFFsome data".to_vec();
    assert_eq!(round_trip(FlacMetadataBlockType::APPLICATION, &app), app);
    assert_eq!(round_trip(FlacMetadataBlockType::PADDING, &[0u8; 5]), vec![0u8; 5]);
}

#[test]
fn picture_with_empty_data_round_trips() {
    let mut p = vec![0, 0, 0, 3];
    p.extend_from_slice(&9u32.to_be_bytes());
    p.extend_from_slice(b"image/png");
    p.extend_from_slice(&0u32.to_be_bytes());
    for v in [1u32, 1, 24, 0, 0] {
        p.extend_from_slice(&v.to_be_bytes());
    }
    assert_eq!(round_trip(FlacMetadataBlockType::PICTURE, &p), p);
    // A data-length field that lies is recomputed from the block's length.
    let mut lying = p.clone();
    let n = lying.len();
    lying[n - 1] = 7;
    lying.extend_from_slice(&[1, 2]);
    let d = FlacMetadataBlockData::decode(&lying, 0, lying.len(), FlacMetadataBlockType::PICTURE).unwrap();
    match d {
        FlacMetadataBlockData::PICTURE(pic) => assert_eq!(pic.pict_data, vec![1, 2]),
        _ => panic!("not a picture"),
    }
}

#[test]
fn cue_sheet_round_trips() {
    let mut c = vec![b'1'; 128];
    c.extend_from_slice(&44100u64.to_be_bytes());
    c.push(0x80);
    c.extend_from_slice(&[0u8; 258]);
    c.push(1);
    c.extend_from_slice(&0u64.to_be_bytes());
    c.push(1);
    c.extend_from_slice(b"ABCDEFGHIJKL");
    c.push(0x40);
    c.extend_from_slice(&[0u8; 13]);
    c.push(2);
    for k in 0u8..2 {
        c.extend_from_slice(&(k as u64 * 588).to_be_bytes());
        c.push(k);
        c.extend_from_slice(&[0, 0, 0]);
    }
    assert_eq!(round_trip(FlacMetadataBlockType::CUESHEET, &c), c);
}

#[test]
fn vorbis_payload_merges_keys() {
    let block = vorbis_block(true, &["artist=a", "ARTIST=b", "TITLE=t=u", "Artist=a"]);
    let payload = &block[4..];
    let d = FlacMetadataBlockData::decode(payload, 0, payload.len(), FlacMetadataBlockType::VORBISCOMMENT).unwrap();
    match &d {
        FlacMetadataBlockData::VORBISCOMMENT(v) => {
            assert_eq!(v.comments.get("artist"), Some("a,b".to_string()));
            assert_eq!(v.comments.get("title"), Some("t=u".to_string()));
            assert_eq!(v.comments.len(), 2);
        }
        _ => panic!("not a comment block"),
    }
    let again = round_trip(FlacMetadataBlockType::VORBISCOMMENT, &d.raw_bytes());
    assert_eq!(again, d.raw_bytes());
}

#[test]
fn getters_read_the_first_comment_block_with_the_key() {
    let mut b = b"fLaC".to_vec();
    b.extend_from_slice(&stream_info(false));
    b.extend_from_slice(&vorbis_block(false, &["TITLE=t"]));
    b.extend_from_slice(&vorbis_block(true, &["ALBUM=second", "DISCID=42"]));
    let t = FlacTag::from_bytes(&b).unwrap();
    assert_eq!(t.title(), Some("t".to_string()));
    assert_eq!(t.album(), Some("second".to_string()));
    assert_eq!(t.disc_id(), Some("42".to_string()));
    assert_eq!(t.as_bytes(), b);
}

#[test]
fn removing_a_field_without_comments_changes_nothing() {
    let mut b = b"fLaC".to_vec();
    b.extend_from_slice(&stream_info(true));
    let mut t = FlacTag::from_bytes(&b).unwrap();
    t.remove_title();
    t.remove_custom_field("X");
    assert!(t.metadata_blocks.is_empty());
    assert_eq!(t.as_bytes(), b);
}

#[test]
fn picture_with_wrong_length_field_reads_whole_block() {
    let mut b = b"fLaC".to_vec();
    b.extend_from_slice(&stream_info(false));
    let mut p = vec![0, 0, 0, 3];
    p.extend_from_slice(&0u32.to_be_bytes());
    p.extend_from_slice(&0u32.to_be_bytes());
    for v in [1u32, 1, 24, 0, 99] {
        p.extend_from_slice(&v.to_be_bytes());
    }
    p.extend_from_slice(&[5, 6, 7]);
    b.push(0x86);
    b.extend_from_slice(&(p.len() as u32).to_be_bytes()[1..]);
    b.extend_from_slice(&p);
    let t = FlacTag::from_bytes(&b).unwrap();
    assert_eq!(t.pictures(), vec![vec![5u8, 6, 7]]);
}
