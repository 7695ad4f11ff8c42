//! Frame identifiers of ID3v2.3: four ASCII characters, held as a big-endian `u32`.
use vstd::prelude::*;

verus! {

/// The `APIC` frame.
pub const APIC: u32 = 0x41504943;

/// The `AENC` frame.
pub const AENC: u32 = 0x41454e43;

/// The `COMM` frame.
pub const COMM: u32 = 0x434f4d4d;

/// The `COMR` frame.
pub const COMR: u32 = 0x434f4d52;

/// The `ENCR` frame.
pub const ENCR: u32 = 0x454e4352;

/// The `EQUA` frame.
pub const EQUA: u32 = 0x45515541;

/// The `ETCO` frame.
pub const ETCO: u32 = 0x4554434f;

/// The `GEOB` frame.
pub const GEOB: u32 = 0x47454f42;

/// The `GRID` frame.
pub const GRID: u32 = 0x47524944;

/// The `IPLS` frame.
pub const IPLS: u32 = 0x49504c53;

/// The `LINK` frame.
pub const LINK: u32 = 0x4c494e4b;

/// The `MCDI` frame.
pub const MCDI: u32 = 0x4d434449;

/// The `MLLT` frame.
pub const MLLT: u32 = 0x4d4c4c54;

/// The `OWNE` frame.
pub const OWNE: u32 = 0x4f574e45;

/// The `PRIV` frame.
pub const PRIV: u32 = 0x50524956;

/// The `PCNT` frame.
pub const PCNT: u32 = 0x50434e54;

/// The `POPM` frame.
pub const POPM: u32 = 0x504f504d;

/// The `POSS` frame.
pub const POSS: u32 = 0x504f5353;

/// The `RBUF` frame.
pub const RBUF: u32 = 0x52425546;

/// The `RVAD` frame.
pub const RVAD: u32 = 0x52564144;

/// The `RVRB` frame.
pub const RVRB: u32 = 0x52565242;

/// The `SYLT` frame.
pub const SYLT: u32 = 0x53594c54;

/// The `SYTC` frame.
pub const SYTC: u32 = 0x53595443;

/// The `TCMP` frame.
pub const TCMP: u32 = 0x54434d50;

/// The `TXXX` frame.
pub const TXXX: u32 = 0x54585858;

/// The `UFID` frame.
pub const UFID: u32 = 0x55464944;

/// The `USER` frame.
pub const USER: u32 = 0x55534552;

/// The `USLT` frame.
pub const USLT: u32 = 0x55534c54;

/// The `WCOM` frame.
pub const WCOM: u32 = 0x57434f4d;

/// The `WCOP` frame.
pub const WCOP: u32 = 0x57434f50;

/// The `WOAF` frame.
pub const WOAF: u32 = 0x574f4146;

/// The `WOAR` frame.
pub const WOAR: u32 = 0x574f4152;

/// The `WOAS` frame.
pub const WOAS: u32 = 0x574f4153;

/// The `WORS` frame.
pub const WORS: u32 = 0x574f5253;

/// The `WPAY` frame.
pub const WPAY: u32 = 0x57504159;

/// The `WPUB` frame.
pub const WPUB: u32 = 0x57505542;

/// The `WXXX` frame.
pub const WXXX: u32 = 0x57585858;

/// The text-information frames.
#[allow(non_camel_case_types)]
#[derive(Copy, Clone, Debug, PartialEq, Eq, Structural)]
pub enum ID3TEXTFRAMEID {
    /// Album/movie/show title
    TALB,
    /// Beats per minute
    TBPM,
    /// Composer
    TCOM,
    /// Content type
    TCON,
    /// Copyright message
    TCOP,
    /// Date
    TDAT,
    /// Playlist delay
    TDLY,
    /// Encoded by
    TENC,
    /// Lyricist/text writer
    TEXT,
    /// File type
    TFLT,
    /// Time
    TIME,
    /// Content group description
    TIT1,
    /// Title/song name
    TIT2,
    /// Subtitle
    TIT3,
    /// Initial key
    TKEY,
    /// Languages
    TLAN,
    /// Length
    TLEN,
    /// Title sort order
    TSOT,
    /// Album artist sort order
    TSO2,
    /// Media type
    TMED,
    /// Original album title
    TOAL,
    /// Original filename
    TOFN,
    /// Original lyricists
    TOLY,
    /// Original artists
    TOPE,
    /// Original release year
    TORY,
    /// File owner/licensee
    TOWN,
    /// Lead performers
    TPE1,
    /// Band/orchestra/accompaniment
    TPE2,
    /// Conductor
    TPE3,
    /// Interpreted, remixed or modified by
    TPE4,
    /// Part of a set
    TPOS,
    /// Publisher
    TPUB,
    /// Track number/position in set
    TRCK,
    /// Recording dates
    TRDA,
    /// Internet radio station name
    TRSN,
    /// Internet radio station owner
    TRSO,
    /// Size
    TSIZ,
    /// International standard recording code
    TSRC,
    /// Encoding software and settings
    TSSE,
    /// Year
    TYER,
}

impl ID3TEXTFRAMEID {
    pub open spec fn code_spec(self) -> u32 {
        match self {
            ID3TEXTFRAMEID::TALB => 0x54414c42,
            ID3TEXTFRAMEID::TBPM => 0x5442504d,
            ID3TEXTFRAMEID::TCOM => 0x54434f4d,
            ID3TEXTFRAMEID::TCON => 0x54434f4e,
            ID3TEXTFRAMEID::TCOP => 0x54434f50,
            ID3TEXTFRAMEID::TDAT => 0x54444154,
            ID3TEXTFRAMEID::TDLY => 0x54444c59,
            ID3TEXTFRAMEID::TENC => 0x54454e43,
            ID3TEXTFRAMEID::TEXT => 0x54455854,
            ID3TEXTFRAMEID::TFLT => 0x54464c54,
            ID3TEXTFRAMEID::TIME => 0x54494d45,
            ID3TEXTFRAMEID::TIT1 => 0x54495431,
            ID3TEXTFRAMEID::TIT2 => 0x54495432,
            ID3TEXTFRAMEID::TIT3 => 0x54495433,
            ID3TEXTFRAMEID::TKEY => 0x544b4559,
            ID3TEXTFRAMEID::TLAN => 0x544c414e,
            ID3TEXTFRAMEID::TLEN => 0x544c454e,
            ID3TEXTFRAMEID::TSOT => 0x54534f54,
            ID3TEXTFRAMEID::TSO2 => 0x54534f32,
            ID3TEXTFRAMEID::TMED => 0x544d4544,
            ID3TEXTFRAMEID::TOAL => 0x544f414c,
            ID3TEXTFRAMEID::TOFN => 0x544f464e,
            ID3TEXTFRAMEID::TOLY => 0x544f4c59,
            ID3TEXTFRAMEID::TOPE => 0x544f5045,
            ID3TEXTFRAMEID::TORY => 0x544f5259,
            ID3TEXTFRAMEID::TOWN => 0x544f574e,
            ID3TEXTFRAMEID::TPE1 => 0x54504531,
            ID3TEXTFRAMEID::TPE2 => 0x54504532,
            ID3TEXTFRAMEID::TPE3 => 0x54504533,
            ID3TEXTFRAMEID::TPE4 => 0x54504534,
            ID3TEXTFRAMEID::TPOS => 0x54504f53,
            ID3TEXTFRAMEID::TPUB => 0x54505542,
            ID3TEXTFRAMEID::TRCK => 0x5452434b,
            ID3TEXTFRAMEID::TRDA => 0x54524441,
            ID3TEXTFRAMEID::TRSN => 0x5452534e,
            ID3TEXTFRAMEID::TRSO => 0x5452534f,
            ID3TEXTFRAMEID::TSIZ => 0x5453495a,
            ID3TEXTFRAMEID::TSRC => 0x54535243,
            ID3TEXTFRAMEID::TSSE => 0x54535345,
            ID3TEXTFRAMEID::TYER => 0x54594552,
        }
    }

    /// The four-character identifier of this frame.
    pub fn code(&self) -> (r: u32)
        ensures
            r == self.code_spec(),
            is_text_id(r),
    {
        match self {
            ID3TEXTFRAMEID::TALB => 0x54414c42,
            ID3TEXTFRAMEID::TBPM => 0x5442504d,
            ID3TEXTFRAMEID::TCOM => 0x54434f4d,
            ID3TEXTFRAMEID::TCON => 0x54434f4e,
            ID3TEXTFRAMEID::TCOP => 0x54434f50,
            ID3TEXTFRAMEID::TDAT => 0x54444154,
            ID3TEXTFRAMEID::TDLY => 0x54444c59,
            ID3TEXTFRAMEID::TENC => 0x54454e43,
            ID3TEXTFRAMEID::TEXT => 0x54455854,
            ID3TEXTFRAMEID::TFLT => 0x54464c54,
            ID3TEXTFRAMEID::TIME => 0x54494d45,
            ID3TEXTFRAMEID::TIT1 => 0x54495431,
            ID3TEXTFRAMEID::TIT2 => 0x54495432,
            ID3TEXTFRAMEID::TIT3 => 0x54495433,
            ID3TEXTFRAMEID::TKEY => 0x544b4559,
            ID3TEXTFRAMEID::TLAN => 0x544c414e,
            ID3TEXTFRAMEID::TLEN => 0x544c454e,
            ID3TEXTFRAMEID::TSOT => 0x54534f54,
            ID3TEXTFRAMEID::TSO2 => 0x54534f32,
            ID3TEXTFRAMEID::TMED => 0x544d4544,
            ID3TEXTFRAMEID::TOAL => 0x544f414c,
            ID3TEXTFRAMEID::TOFN => 0x544f464e,
            ID3TEXTFRAMEID::TOLY => 0x544f4c59,
            ID3TEXTFRAMEID::TOPE => 0x544f5045,
            ID3TEXTFRAMEID::TORY => 0x544f5259,
            ID3TEXTFRAMEID::TOWN => 0x544f574e,
            ID3TEXTFRAMEID::TPE1 => 0x54504531,
            ID3TEXTFRAMEID::TPE2 => 0x54504532,
            ID3TEXTFRAMEID::TPE3 => 0x54504533,
            ID3TEXTFRAMEID::TPE4 => 0x54504534,
            ID3TEXTFRAMEID::TPOS => 0x54504f53,
            ID3TEXTFRAMEID::TPUB => 0x54505542,
            ID3TEXTFRAMEID::TRCK => 0x5452434b,
            ID3TEXTFRAMEID::TRDA => 0x54524441,
            ID3TEXTFRAMEID::TRSN => 0x5452534e,
            ID3TEXTFRAMEID::TRSO => 0x5452534f,
            ID3TEXTFRAMEID::TSIZ => 0x5453495a,
            ID3TEXTFRAMEID::TSRC => 0x54535243,
            ID3TEXTFRAMEID::TSSE => 0x54535345,
            ID3TEXTFRAMEID::TYER => 0x54594552,
        }
    }
}

/// Whether `id` names a text-information frame.
pub open spec fn is_text_id(id: u32) -> bool {
    id == 0x54414c42
    || id == 0x5442504d
    || id == 0x54434f4d
    || id == 0x54434f4e
    || id == 0x54434f50
    || id == 0x54444154
    || id == 0x54444c59
    || id == 0x54454e43
    || id == 0x54455854
    || id == 0x54464c54
    || id == 0x54494d45
    || id == 0x54495431
    || id == 0x54495432
    || id == 0x54495433
    || id == 0x544b4559
    || id == 0x544c414e
    || id == 0x544c454e
    || id == 0x54534f54
    || id == 0x54534f32
    || id == 0x544d4544
    || id == 0x544f414c
    || id == 0x544f464e
    || id == 0x544f4c59
    || id == 0x544f5045
    || id == 0x544f5259
    || id == 0x544f574e
    || id == 0x54504531
    || id == 0x54504532
    || id == 0x54504533
    || id == 0x54504534
    || id == 0x54504f53
    || id == 0x54505542
    || id == 0x5452434b
    || id == 0x54524441
    || id == 0x5452534e
    || id == 0x5452534f
    || id == 0x5453495a
    || id == 0x54535243
    || id == 0x54535345
    || id == 0x54594552
}

/// Whether `id` names a text-information frame.
pub fn is_text_frame_id(id: u32) -> (r: bool)
    ensures
        r == is_text_id(id),
{
    id == 0x54414c42
    || id == 0x5442504d
    || id == 0x54434f4d
    || id == 0x54434f4e
    || id == 0x54434f50
    || id == 0x54444154
    || id == 0x54444c59
    || id == 0x54454e43
    || id == 0x54455854
    || id == 0x54464c54
    || id == 0x54494d45
    || id == 0x54495431
    || id == 0x54495432
    || id == 0x54495433
    || id == 0x544b4559
    || id == 0x544c414e
    || id == 0x544c454e
    || id == 0x54534f54
    || id == 0x54534f32
    || id == 0x544d4544
    || id == 0x544f414c
    || id == 0x544f464e
    || id == 0x544f4c59
    || id == 0x544f5045
    || id == 0x544f5259
    || id == 0x544f574e
    || id == 0x54504531
    || id == 0x54504532
    || id == 0x54504533
    || id == 0x54504534
    || id == 0x54504f53
    || id == 0x54505542
    || id == 0x5452434b
    || id == 0x54524441
    || id == 0x5452534e
    || id == 0x5452534f
    || id == 0x5453495a
    || id == 0x54535243
    || id == 0x54535345
    || id == 0x54594552
}

/// Whether `id` names a URL-link frame.
pub open spec fn is_url_id(id: u32) -> bool {
    id == WCOM
    || id == WCOP
    || id == WOAF
    || id == WOAR
    || id == WOAS
    || id == WORS
    || id == WPAY
    || id == WPUB
}

/// Whether `id` names a URL-link frame.
pub fn is_url_frame_id(id: u32) -> (r: bool)
    ensures
        r == is_url_id(id),
{
    id == WCOM
    || id == WCOP
    || id == WOAF
    || id == WOAR
    || id == WOAS
    || id == WORS
    || id == WPAY
    || id == WPUB
}

/// Whether `id` names a frame whose payload is kept as opaque bytes.
pub open spec fn is_binary_id(id: u32) -> bool {
    id == MCDI
    || id == MLLT
    || id == SYLT
    || id == RVAD
    || id == EQUA
    || id == RVRB
    || id == PCNT
    || id == POPM
    || id == LINK
    || id == POSS
    || id == OWNE
    || id == COMR
    || id == ENCR
    || id == GRID
}

} // verus!
