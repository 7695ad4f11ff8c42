//! Decimal renderings of numbers and the picture formats.
use vstd::prelude::*;
use vstd::string::*;
use crate::bytes::{be_val, read_be, unsynchsafe, unsynchsafe_spec, pow256, lemma_be_val_bound};

verus! {

/// The decimal digit for `d` below ten.
pub open spec fn digit(d: nat) -> char {
    ((d % 10) + 48) as char
}

/// The decimal digits of `n`, most significant first, with no leading zero.
pub open spec fn decimal_of(n: nat) -> Seq<char>
    decreases n,
{
    if n < 10 {
        seq![digit(n)]
    } else {
        decimal_of(n / 10).push(digit(n % 10))
    }
}

/// The decimal rendering of a signed number: a minus sign before negative ones.
pub open spec fn signed_decimal_of(n: int) -> Seq<char> {
    if n < 0 {
        seq!['-'] + decimal_of((-n) as nat)
    } else {
        decimal_of(n as nat)
    }
}

/// Relies on the `Display` of `u16`: its decimal digits.
#[verifier::external_body]
pub(crate) fn u16_to_string(n: u16) -> (r: String)
    ensures
        r@ == decimal_of(n as nat),
{
    n.to_string()
}

/// Relies on the `Display` of `i16`: its decimal digits, after a minus sign when negative.
#[verifier::external_body]
pub(crate) fn i16_to_string(n: i16) -> (r: String)
    ensures
        r@ == signed_decimal_of(n as int),
{
    n.to_string()
}

/// Picture file formats.
pub enum PictureFormat {
    PNG,
    JPEG,
    OTHER(String),
}

impl PictureFormat {
    pub open spec fn mime_spec(&self) -> Seq<char> {
        match self {
            PictureFormat::PNG => "image/png"@,
            PictureFormat::JPEG => "image/jpeg"@,
            PictureFormat::OTHER(s) => "image/"@ + s@,
        }
    }

    /// The MIME type of pictures in this format.
    pub fn to_mime_string(&self) -> (r: String)
        ensures
            r@ == self.mime_spec(),
    {
        match self {
            PictureFormat::PNG => String::from_str("image/png"),
            PictureFormat::JPEG => String::from_str("image/jpeg"),
            PictureFormat::OTHER(s) => String::from_str("image/").concat(s.as_str()),
        }
    }
}

/// The kinds of audio file this library knows the tags of.
#[derive(Copy, Clone, Debug, PartialEq, Eq, Structural)]
pub enum AudioFormat {
    MP3,
    FLAC,
    OTHER,
}

/// The format of a file from its first bytes, and, for an ID3-tagged file, the size its tag
/// header declares (0 otherwise).
pub fn detect_format(buffer: &[u8]) -> (r: (AudioFormat, usize))
    ensures
        buffer@.len() >= 10 && buffer@[0] == 0x49 && buffer@[1] == 0x44 && buffer@[2] == 0x33 ==> r == (
            AudioFormat::MP3,
            unsynchsafe_spec(be_val(buffer@.subrange(6, 10)) as u32) as usize,
        ),
        !(buffer@.len() >= 10 && buffer@[0] == 0x49 && buffer@[1] == 0x44 && buffer@[2] == 0x33) ==> r.1 == 0
            && (r.0 == AudioFormat::FLAC <==> (buffer@.len() >= 4 && buffer@[0] == 0x66 && buffer@[1] == 0x4c
            && buffer@[2] == 0x61 && buffer@[3] == 0x43)),
        r.0 == AudioFormat::MP3 || r.0 == AudioFormat::FLAC || r.0 == AudioFormat::OTHER,
{
    if buffer.len() >= 10 && buffer[0] == 0x49 && buffer[1] == 0x44 && buffer[2] == 0x33 {
        let raw = read_be(buffer, 6, 4).unwrap();
        proof {
            lemma_be_val_bound(buffer@.subrange(6, 10));
            reveal_with_fuel(pow256, 5);
        }
        return (AudioFormat::MP3, unsynchsafe(raw as u32) as usize);
    }
    if buffer.len() >= 4 && buffer[0] == 0x66 && buffer[1] == 0x4c && buffer[2] == 0x61 && buffer[3] == 0x43 {
        return (AudioFormat::FLAC, 0);
    }
    (AudioFormat::OTHER, 0)
}

} // verus!
