//! Text encodings of ID3 string fields, with their terminators.
use vstd::prelude::*;
use vstd::utf8::*;
use vstd::string::*;

verus! {

broadcast use vstd::utf8::encode_utf8_valid_utf8, vstd::utf8::encode_utf8_decode_utf8, vstd::utf8::decode_utf8_encode_utf8;

/// How the bytes of a string field are laid out.
#[derive(Copy, Clone, Debug, PartialEq, Eq, Structural)]
pub enum TextEncoding {
    /// One byte per character (written as UTF-8, which is the same for ASCII text).
    Iso8859_1,
    /// UTF-16, little-endian.
    UnicodeUtf16,
    /// UTF-16, big-endian.
    UnicodeBigEndian,
    /// UTF-8.
    UnicodeUtf8,
}

impl TextEncoding {
    pub open spec fn raw(self) -> u8 {
        match self {
            TextEncoding::Iso8859_1 => 0,
            TextEncoding::UnicodeUtf16 => 1,
            TextEncoding::UnicodeBigEndian => 2,
            TextEncoding::UnicodeUtf8 => 3,
        }
    }

    pub open spec fn width(self) -> nat {
        match self {
            TextEncoding::Iso8859_1 | TextEncoding::UnicodeUtf8 => 1,
            _ => 2,
        }
    }

    /// The encoding that the marker byte `value` stands for.
    pub fn from_raw_value(value: u8) -> (r: Option<TextEncoding>)
        ensures
            value <= 3 ==> (r matches Some(e) && e.raw() == value),
            value > 3 ==> r is None,
    {
        match value {
            0 => Some(TextEncoding::Iso8859_1),
            1 => Some(TextEncoding::UnicodeUtf16),
            2 => Some(TextEncoding::UnicodeBigEndian),
            3 => Some(TextEncoding::UnicodeUtf8),
            _ => None,
        }
    }

    /// The marker byte written before a field in this encoding.
    pub fn raw_value(&self) -> (r: u8)
        ensures
            r == self.raw(),
    {
        match self {
            TextEncoding::Iso8859_1 => 0,
            TextEncoding::UnicodeUtf16 => 1,
            TextEncoding::UnicodeBigEndian => 2,
            TextEncoding::UnicodeUtf8 => 3,
        }
    }

    /// Width in bytes of a code unit, and so of the terminator.
    pub fn encoding_size(&self) -> (r: u8)
        ensures
            r as nat == self.width(),
    {
        match self {
            TextEncoding::Iso8859_1 | TextEncoding::UnicodeUtf8 => 1,
            TextEncoding::UnicodeUtf16 | TextEncoding::UnicodeBigEndian => 2,
        }
    }

    /// Whether the terminator is a single zero byte.
    pub fn is_one_byte(&self) -> (r: bool)
        ensures
            r == (self.width() == 1),
    {
        match self {
            TextEncoding::Iso8859_1 | TextEncoding::UnicodeUtf8 => true,
            TextEncoding::UnicodeUtf16 | TextEncoding::UnicodeBigEndian => false,
        }
    }
}

/// The UTF-16 code units of one character.
pub open spec fn utf16_units_of_char(c: char) -> Seq<u16> {
    let v = c as u32;
    if v < 0x1_0000 {
        seq![v as u16]
    } else {
        seq![(0xd800 + ((v - 0x1_0000) / 0x400)) as u16, (0xdc00 + ((v - 0x1_0000) % 0x400)) as u16]
    }
}

/// The UTF-16 code units of a string.
pub open spec fn utf16_of(s: Seq<char>) -> Seq<u16>
    decreases s.len(),
{
    if s.len() == 0 {
        Seq::empty()
    } else {
        utf16_units_of_char(s[0]) + utf16_of(s.drop_first())
    }
}

/// Code units laid out least significant byte first.
pub open spec fn units_le(u: Seq<u16>) -> Seq<u8>
    decreases u.len(),
{
    if u.len() == 0 {
        Seq::empty()
    } else {
        units_le(u.drop_last()) + seq![(u.last() % 256) as u8, (u.last() / 256) as u8]
    }
}

/// Code units laid out most significant byte first.
pub open spec fn units_be(u: Seq<u16>) -> Seq<u8>
    decreases u.len(),
{
    if u.len() == 0 {
        Seq::empty()
    } else {
        units_be(u.drop_last()) + seq![(u.last() / 256) as u8, (u.last() % 256) as u8]
    }
}

/// The bytes of `s` in encoding `e`, without terminator.
pub open spec fn text_bytes(e: TextEncoding, s: Seq<char>) -> Seq<u8> {
    match e {
        TextEncoding::UnicodeUtf16 => units_le(utf16_of(s)),
        TextEncoding::UnicodeBigEndian => units_be(utf16_of(s)),
        _ => encode_utf8(s),
    }
}

/// The terminator of encoding `e`: one or two zero bytes.
pub open spec fn terminator(e: TextEncoding) -> Seq<u8> {
    if e.width() == 1 {
        seq![0u8]
    } else {
        seq![0u8, 0u8]
    }
}

pub open spec fn ends_with_nul(s: Seq<char>) -> bool {
    s.len() > 0 && s.last() == '\0'
}

/// The bytes of a field: the text, then the terminator when one is asked for and the text
/// does not already end with one.
pub open spec fn field_bytes(e: TextEncoding, s: Seq<char>, terminated: bool) -> Seq<u8> {
    if terminated && !ends_with_nul(s) {
        text_bytes(e, s) + terminator(e)
    } else {
        text_bytes(e, s)
    }
}

/// A terminator of `e` starts at offset `i` of `b`, on a code-unit boundary.
pub open spec fn term_at(e: TextEncoding, b: Seq<u8>, i: int) -> bool {
    &&& 0 <= i
    &&& i + e.width() <= b.len()
    &&& i % (e.width() as int) == 0
    &&& b[i] == 0
    &&& e.width() == 2 ==> b[i + 1] == 0
}

/// No terminator of `e` stands in `b`.
pub open spec fn free_of_term(e: TextEncoding, b: Seq<u8>) -> bool {
    forall|i: int| !#[trigger] term_at(e, b, i)
}

/// Relies on `str::from_utf8`: it accepts exactly the valid UTF-8 sequences.
#[verifier::external_body]
fn str_from_utf8(b: &[u8]) -> (r: Option<&str>)
    ensures
        r is Some <==> valid_utf8(b@),
        r matches Some(s) ==> s@ == decode_utf8(b@),
{
    std::str::from_utf8(b).ok()
}

/// Relies on `str::encode_utf16`: the UTF-16 code units of the string.
#[verifier::external_body]
fn encode_utf16(s: &str) -> (r: Vec<u16>)
    ensures
        r@ == utf16_of(s@),
{
    s.encode_utf16().collect()
}

/// Relies on `String::from_utf16`: it decodes exactly the sequences that some string encodes to.
#[verifier::external_body]
fn string_from_utf16(u: &[u16]) -> (r: Option<String>)
    ensures
        r matches Some(x) ==> utf16_of(x@) == u@,
        r matches Some(x) ==> forall|t: Seq<char>| #[trigger] utf16_of(t) == u@ ==> x@ == t,
        r is None ==> forall|t: Seq<char>| #[trigger] utf16_of(t) != u@,
{
    String::from_utf16(u).ok()
}

/// Appends the bytes of a slice.
pub fn append_slice(out: &mut Vec<u8>, b: &[u8])
    ensures
        final(out)@ == old(out)@ + b@,
{
    let mut i: usize = 0;
    while i < b.len()
        invariant
            i <= b@.len(),
            out@ == old(out)@ + b@.subrange(0, i as int),
        decreases b@.len() - i,
    {
        out.push(b[i]);
        i = i + 1;
        assert(out@ =~= old(out)@ + b@.subrange(0, i as int));
    }
    assert(b@.subrange(0, b@.len() as int) =~= b@);
}

/// Appends the bytes of `s` in encoding `e`, with a terminator when `terminated` is set
/// and `s` does not already end with one.
pub fn encode_text(out: &mut Vec<u8>, s: &str, e: TextEncoding, terminated: bool)
    ensures
        final(out)@ == old(out)@ + field_bytes(e, s@, terminated),
{
    match e {
        TextEncoding::Iso8859_1 | TextEncoding::UnicodeUtf8 => {
            append_slice(out, s.as_bytes());
        },
        _ => {
            let units = encode_utf16(s);
            let mut i: usize = 0;
            while i < units.len()
                invariant
                    i <= units@.len(),
                    units@ == utf16_of(s@),
                    e == TextEncoding::UnicodeUtf16 || e == TextEncoding::UnicodeBigEndian,
                    e == TextEncoding::UnicodeUtf16 ==> out@ == old(out)@ + units_le(
                        units@.subrange(0, i as int),
                    ),
                    e == TextEncoding::UnicodeBigEndian ==> out@ == old(out)@ + units_be(
                        units@.subrange(0, i as int),
                    ),
                decreases units@.len() - i,
            {
                let u = units[i];
                let ghost prev = units@.subrange(0, i as int);
                assert(units@.subrange(0, i + 1).drop_last() =~= prev);
                if e == TextEncoding::UnicodeUtf16 {
                    out.push((u % 256) as u8);
                    out.push((u / 256) as u8);
                } else {
                    out.push((u / 256) as u8);
                    out.push((u % 256) as u8);
                }
                i = i + 1;
                assert(out@ =~= old(out)@ + text_bytes_prefix(e, units@.subrange(0, i as int)));
            }
            assert(units@.subrange(0, units@.len() as int) =~= units@);
        },
    }
    if terminated && !ends_with_nul_exec(s) {
        out.push(0);
        if !e.is_one_byte() {
            out.push(0);
        }
    }
    assert(out@ =~= old(out)@ + field_bytes(e, s@, terminated));
}

pub open spec fn text_bytes_prefix(e: TextEncoding, u: Seq<u16>) -> Seq<u8> {
    if e == TextEncoding::UnicodeUtf16 {
        units_le(u)
    } else {
        units_be(u)
    }
}

/// Relies on `str::ends_with`: whether the last character of `s` is NUL.
#[verifier::external_body]
fn ends_with_nul_exec(s: &str) -> (r: bool)
    ensures
        r == ends_with_nul(s@),
{
    s.ends_with('\0')
}

pub proof fn lemma_units_len(u: Seq<u16>)
    ensures
        units_le(u).len() == 2 * u.len(),
        units_be(u).len() == 2 * u.len(),
    decreases u.len(),
{
    if u.len() > 0 {
        lemma_units_len(u.drop_last());
    }
}

/// Two unit sequences with the same bytes are the same.
pub proof fn lemma_units_inj(u: Seq<u16>, v: Seq<u16>, big: bool)
    requires
        big ==> units_be(u) == units_be(v),
        !big ==> units_le(u) == units_le(v),
    ensures
        u == v,
    decreases u.len(),
{
    lemma_units_len(u);
    lemma_units_len(v);
    if u.len() > 0 {
        let bu = if big { units_be(u) } else { units_le(u) };
        let n = bu.len();
        assert(n >= 2);
        let a = u.last();
        let b = v.last();
        if big {
            assert(units_be(u).subrange(0, n - 2) =~= units_be(u.drop_last()));
            assert(units_be(v).subrange(0, n - 2) =~= units_be(v.drop_last()));
            assert(units_be(u)[n - 2] == (a / 256) as u8 && units_be(u)[n - 1] == (a % 256) as u8);
            assert(units_be(v)[n - 2] == (b / 256) as u8 && units_be(v)[n - 1] == (b % 256) as u8);
        } else {
            assert(units_le(u).subrange(0, n - 2) =~= units_le(u.drop_last()));
            assert(units_le(v).subrange(0, n - 2) =~= units_le(v.drop_last()));
            assert(units_le(u)[n - 2] == (a % 256) as u8 && units_le(u)[n - 1] == (a / 256) as u8);
            assert(units_le(v)[n - 2] == (b % 256) as u8 && units_le(v)[n - 1] == (b / 256) as u8);
        }
        assert(a == b);
        lemma_units_inj(u.drop_last(), v.drop_last(), big);
        assert(u =~= u.drop_last().push(a));
        assert(v =~= v.drop_last().push(b));
    }
}

/// The first terminator of `e` in `b` starts at offset `k`.
pub open spec fn first_term(e: TextEncoding, b: Seq<u8>, k: int) -> bool {
    term_at(e, b, k) && forall|j: int| 0 <= j < k ==> !#[trigger] term_at(e, b, j)
}

/// Decodes the bytes `b[start..end]` as text in encoding `e`; `None` when they are no such text.
pub fn decode_text(b: &[u8], start: usize, end: usize, e: TextEncoding) -> (r: Option<String>)
    requires
        start <= end <= b@.len(),
    ensures
        r matches Some(s) ==> text_bytes(e, s@) == b@.subrange(start as int, end as int),
        r is None ==> forall|t: Seq<char>|
            #[trigger] text_bytes(e, t) != b@.subrange(start as int, end as int),
        r matches Some(s) ==> forall|t: Seq<char>|
            #[trigger] text_bytes(e, t) == b@.subrange(start as int, end as int) ==> s@ == t,
{
    let ghost sub = b@.subrange(start as int, end as int);
    let mut v: Vec<u8> = Vec::new();
    let mut i: usize = start;
    while i < end
        invariant
            start <= i <= end <= b@.len(),
            v@ == b@.subrange(start as int, i as int),
        decreases end - i,
    {
        v.push(b[i]);
        i = i + 1;
        assert(v@ =~= b@.subrange(start as int, i as int));
    }
    match e {
        TextEncoding::Iso8859_1 | TextEncoding::UnicodeUtf8 => {
            match str_from_utf8(v.as_slice()) {
                Some(s) => {
                    let r = s.to_owned();
                    proof {
                        assert forall|t: Seq<char>| #[trigger] text_bytes(e, t) == sub implies r@ == t by {
                            assert(decode_utf8(encode_utf8(t)) == t);
                        }
                    }
                    Some(r)
                },
                None => None,
            }
        },
        _ => {
            if v.len() % 2 != 0 {
                proof {
                    assert forall|t: Seq<char>| #[trigger] text_bytes(e, t) != sub by {
                        lemma_units_len(utf16_of(t));
                    }
                }
                return None;
            }
            let mut units: Vec<u16> = Vec::new();
            let mut k: usize = 0;
            let big = e == TextEncoding::UnicodeBigEndian;
            while k < v.len() / 2
                invariant
                    v@ == sub,
                    v@.len() % 2 == 0,
                    k <= v@.len() / 2,
                    units@.len() == k,
                    big ==> units_be(units@) == v@.subrange(0, 2 * k),
                    !big ==> units_le(units@) == v@.subrange(0, 2 * k),
                decreases v@.len() / 2 - k,
            {
                let lo = if big { v[2 * k + 1] } else { v[2 * k] };
                let hi = if big { v[2 * k] } else { v[2 * k + 1] };
                let u: u16 = (hi as u16) * 256 + lo as u16;
                let ghost prev = units@;
                units.push(u);
                assert(units@.drop_last() =~= prev);
                k = k + 1;
                assert(u / 256 == hi as u16 && u % 256 == lo as u16);
                if big {
                    assert(units_be(units@) =~= v@.subrange(0, 2 * k));
                } else {
                    assert(units_le(units@) =~= v@.subrange(0, 2 * k));
                }
            }
            assert(v@.subrange(0, v@.len() as int) =~= v@);
            let r = string_from_utf16(units.as_slice());
            proof {
                if r is Some {
                    assert forall|t: Seq<char>| #[trigger] text_bytes(e, t) == sub implies r->0@ == t by {
                        lemma_units_inj(utf16_of(t), units@, big);
                    }
                }
                if r is None {
                    assert forall|t: Seq<char>| #[trigger] text_bytes(e, t) != sub by {
                        if text_bytes(e, t) == sub {
                            lemma_units_inj(utf16_of(t), units@, big);
                        }
                    }
                }
            }
            r
        },
    }
}

/// Finds the first terminator of `e` in `b[start..end]`, as an offset from `start`.
pub fn find_term(b: &[u8], start: usize, end: usize, e: TextEncoding) -> (r: Option<usize>)
    requires
        start <= end <= b@.len(),
    ensures
        r matches Some(k) ==> first_term(e, b@.subrange(start as int, end as int), k as int),
        r is None ==> forall|j: int| !#[trigger] term_at(e, b@.subrange(start as int, end as int), j),
{
    let ghost sub = b@.subrange(start as int, end as int);
    let w: usize = if e.is_one_byte() { 1 } else { 2 };
    let mut k: usize = 0;
    while k < end - start && w <= end - start - k
        invariant
            start <= end <= b@.len(),
            sub == b@.subrange(start as int, end as int),
            w == 1 || w == 2,
            w as nat == e.width(),
            k % w == 0,
            k <= end - start + 1,
            forall|j: int| 0 <= j < k ==> !#[trigger] term_at(e, sub, j),
        decreases end - start + 1 - k,
    {
        if b[start + k] == 0 && (w == 1 || b[start + k + 1] == 0) {
            assert(sub[k as int] == b@[start + k]);
            assert(w == 2 ==> sub[k + 1] == b@[start + k + 1]);
            assert(term_at(e, sub, k as int));
            return Some(k);
        }
        proof {
            assert(sub[k as int] == b@[start + k]);
            assert(w == 2 ==> sub[k + 1] == b@[start + k + 1]);
            assert forall|j: int| 0 <= j < k + w implies !#[trigger] term_at(e, sub, j) by {
                if j > k {
                    assert(j % (w as int) != 0);
                }
            }
        }
        k = k + w;
    }
    proof {
        assert forall|j: int| !#[trigger] term_at(e, sub, j) by {
            if j >= k && term_at(e, sub, j) {
                if k >= end - start {
                    assert(j + w > end - start);
                } else {
                    assert(k + w > end - start);
                    assert(j % (w as int) == 0);
                    assert(j + w > end - start);
                }
            }
        }
    }
    None
}

/// A string that can stand in a terminated field of encoding `e`: it holds no terminator
/// and does not end with NUL.
pub open spec fn field_ok(e: TextEncoding, s: Seq<char>) -> bool {
    !ends_with_nul(s) && free_of_term(e, text_bytes(e, s))
}

pub proof fn lemma_text_len_aligned(e: TextEncoding, s: Seq<char>)
    ensures
        (text_bytes(e, s).len() as int) % (e.width() as int) == 0,
{
    if e.width() == 2 {
        lemma_units_len(utf16_of(s));
    }
}

/// The length of a terminated field holding `t`.
pub open spec fn field_len(e: TextEncoding, t: Seq<char>) -> int {
    text_bytes(e, t).len() + e.width() as int
}

/// `b[pos..end]` opens with the field-ready string `t` and its terminator.
pub open spec fn field_at(e: TextEncoding, t: Seq<char>, b: Seq<u8>, pos: int, end: int) -> bool {
    &&& field_ok(e, t)
    &&& pos + field_len(e, t) <= end
    &&& b.subrange(pos, pos + field_len(e, t)) == text_bytes(e, t) + terminator(e)
}

/// Decodes a terminated field at `pos`, ending at or before `end`: the text and the offset
/// just past its terminator.
pub fn decode_field(b: &[u8], pos: usize, end: usize, e: TextEncoding) -> (r: Option<(String, usize)>)
    requires
        pos <= end <= b@.len(),
    ensures
        r matches Some((s, p)) ==> {
            &&& pos <= p <= end
            &&& field_ok(e, s@)
            &&& b@.subrange(pos as int, p as int) == text_bytes(e, s@) + terminator(e)
        },
        forall|t: Seq<char>|
            #[trigger] field_at(e, t, b@, pos as int, end as int) ==> (r matches Some((x, p))
                && x@ == t && p == pos + field_len(e, t)),
{
    let ghost sub = b@.subrange(pos as int, end as int);
    let k = match find_term(b, pos, end, e) {
        Some(k) => k,
        None => {
            proof {
                assert forall|t: Seq<char>|
                    #[trigger] field_at(e, t, b@, pos as int, end as int) implies false by {
                    let tb = text_bytes(e, t);
                    lemma_text_len_aligned(e, t);
                    assert(sub[tb.len() as int] == b@.subrange(pos as int, pos + field_len(e, t))[tb.len() as int]);
                    assert(e.width() == 2 ==> sub[tb.len() as int + 1] == b@.subrange(pos as int, pos + field_len(e, t))[tb.len() as int + 1]);
                    assert(term_at(e, sub, tb.len() as int));
                }
            }
            return None;
        },
    };
    let w: usize = if e.is_one_byte() { 1 } else { 2 };
    let s = match decode_text(b, pos, pos + k, e) {
        Some(s) => s,
        None => {
            proof {
                assert forall|t: Seq<char>|
                    #[trigger] field_at(e, t, b@, pos as int, end as int) implies false by {
                    lemma_field_first_term(e, t, b@, pos as int, end as int, k as int);
                    assert(b@.subrange(pos as int, pos + k) =~= text_bytes(e, t));
                }
            }
            return None;
        },
    };
    if ends_with_nul_exec(s.as_str()) {
        proof {
            assert forall|t: Seq<char>|
                #[trigger] field_at(e, t, b@, pos as int, end as int) implies false by {
                lemma_field_first_term(e, t, b@, pos as int, end as int, k as int);
                assert(b@.subrange(pos as int, pos + k) =~= text_bytes(e, t));
            }
        }
        return None;
    }
    proof {
        assert(text_bytes(e, s@) == b@.subrange(pos as int, pos + k));
        assert forall|i: int| !#[trigger] term_at(e, text_bytes(e, s@), i) by {
            if term_at(e, text_bytes(e, s@), i) {
                assert(sub[i] == text_bytes(e, s@)[i]);
                assert(e.width() == 2 ==> sub[i + 1] == text_bytes(e, s@)[i + 1]);
                assert(term_at(e, sub, i));
            }
        }
        assert(sub[k as int] == b@[pos + k]);
        assert(b@.subrange(pos as int, pos + k + w) =~= text_bytes(e, s@) + terminator(e));
        assert forall|t: Seq<char>|
            #[trigger] field_at(e, t, b@, pos as int, end as int) implies s@ == t && pos + k + w == pos
                + field_len(e, t) by {
            lemma_field_first_term(e, t, b@, pos as int, end as int, k as int);
            assert(b@.subrange(pos as int, pos + k) =~= text_bytes(e, t));
        }
    }
    Some((s, pos + k + w))
}

/// Where a field-ready string and its terminator open `b[pos..end]`, its first terminator
/// stands right after the text.
proof fn lemma_field_first_term(e: TextEncoding, t: Seq<char>, b: Seq<u8>, pos: int, end: int, k: int)
    requires
        0 <= pos <= end <= b.len(),
        field_at(e, t, b, pos, end),
        first_term(e, b.subrange(pos, end), k),
    ensures
        k == text_bytes(e, t).len(),
{
    let tb = text_bytes(e, t);
    let sub = b.subrange(pos, end);
    let pre = b.subrange(pos, pos + field_len(e, t));
    lemma_text_len_aligned(e, t);
    assert(sub[tb.len() as int] == pre[tb.len() as int]);
    assert(e.width() == 2 ==> sub[tb.len() as int + 1] == pre[tb.len() as int + 1]);
    assert(term_at(e, sub, tb.len() as int));
    if k < tb.len() {
        assert(sub[k] == tb[k]);
        if e.width() == 2 {
            if k + 1 < tb.len() {
                assert(sub[k + 1] == tb[k + 1]);
                assert(term_at(e, tb, k));
            } else {
                assert(k % 2 == 0);
                assert(tb.len() % 2 == 0);
            }
        } else {
            assert(term_at(e, tb, k));
        }
    }
}

/// In a two-byte encoding a single zero byte ends nothing: only a whole zero code unit, on a
/// code-unit boundary, is a terminator. So a code unit such as 0x00FF never cuts a string short.
pub proof fn lemma_two_byte_terminator(e: TextEncoding, b: Seq<u8>, i: int)
    requires
        e.width() == 2,
        0 <= i < b.len(),
        b[i] == 0,
        i % 2 == 1 || i + 1 >= b.len() || b[i + 1] != 0,
    ensures
        !term_at(e, b, i),
{
}

} // verus!
