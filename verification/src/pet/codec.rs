//! WebP size probing and base64 coding.

use vstd::prelude::*;

use crate::strings::push_char;
use crate::text::chars_of;

verus! {

/// A little-endian 16-bit field.
pub open spec fn le16(b0: u8, b1: u8) -> u32 {
    (b0 + b1 * 256) as u32
}

/// A little-endian 24-bit field.
pub open spec fn le24(b0: u8, b1: u8, b2: u8) -> u32 {
    (b0 + b1 * 256 + b2 * 65536) as u32
}

/// The bytes of a four-character ASCII tag.
pub open spec fn tag(a: char, b: char, c: char, d: char) -> Seq<u8> {
    seq![a as u8, b as u8, c as u8, d as u8]
}

/// The (width, height) recorded in a WebP file header, or `None` when the
/// data is not a WebP file this probe understands.
///
/// The file must be at least 30 bytes, start with `RIFF`, carry `WEBP` at
/// offset 8, and have one of three first chunks (tag at offset 12, payload
/// from offset 20):
/// - `VP8 ` (lossy): 16-bit width and height at payload bytes 6..10;
/// - `VP8L` (lossless): 14-bit width−1 and height−1 packed from payload byte 1;
/// - `VP8X` (extended): 24-bit width−1 and height−1 at payload bytes 4..10.
pub open spec fn webp_size(d: Seq<u8>) -> Option<(u32, u32)> {
    if d.len() < 30 || d.subrange(0, 4) != tag('R', 'I', 'F', 'F') || d.subrange(8, 12) != tag(
        'W',
        'E',
        'B',
        'P',
    ) {
        None
    } else {
        let chunk = d.subrange(12, 16);
        let p = d.subrange(20, d.len() as int);
        if chunk == tag('V', 'P', '8', ' ') {
            if p.len() < 11 {
                None
            } else {
                Some((le16(p[6], p[7]), le16(p[8], p[9])))
            }
        } else if chunk == tag('V', 'P', '8', 'L') {
            Some(
                (
                    (p[1] + (p[2] % 64) * 256 + 1) as u32,
                    (p[2] / 64 + p[3] * 4 + (p[4] % 16) * 1024 + 1) as u32,
                ),
            )
        } else if chunk == tag('V', 'P', '8', 'X') {
            Some(((le24(p[4], p[5], p[6]) + 1) as u32, (le24(p[7], p[8], p[9]) + 1) as u32))
        } else {
            None
        }
    }
}

/// A file starting `RIFF`, four size bytes, `WEBP`, then the chunk tag
/// `fourcc` (bytes 12..16), at least 30 bytes long.
pub open spec fn riff_webp_with(d: Seq<u8>, fourcc: Seq<u8>) -> bool {
    &&& d.len() >= 30
    &&& d[0] == 0x52u8 && d[1] == 0x49u8 && d[2] == 0x46u8 && d[3] == 0x46u8
    &&& d[8] == 0x57u8 && d[9] == 0x45u8 && d[10] == 0x42u8 && d[11] == 0x50u8
    &&& d.subrange(12, 16) == fourcc
}

/// A lossless (`VP8L`) header that packs width−1 into 14 bits from payload
/// byte 1 and height−1 into the next 14 bits is read back as that width and
/// height: the low byte of width−1, then its high 6 bits under the low 2
/// bits of height−1, then height−1's next 8 bits, then its top 4 bits.
pub proof fn lemma_webp_lossless_size(d: Seq<u8>, w: int, h: int)
    requires
        riff_webp_with(d, seq![0x56u8, 0x50u8, 0x38u8, 0x4cu8]),
        1 <= w <= 16384,
        1 <= h <= 16384,
        d[21] == (w - 1) % 256,
        d[22] == (w - 1) / 256 + ((h - 1) % 4) * 64,
        d[23] == ((h - 1) / 4) % 256,
        d[24] % 16 == (h - 1) / 1024,
    ensures
        webp_size(d) == Some((w as u32, h as u32)),
{
    reveal_tags(d);
    let p = d.subrange(20, d.len() as int);
    assert(p[1] == d[21] && p[2] == d[22] && p[3] == d[23] && p[4] == d[24]);
    let x = (w - 1) / 256;
    let y = (h - 1) % 4;
    assert(x < 64);
    assert((x + y * 64) % 64 == x && (x + y * 64) / 64 == y) by (nonlinear_arith)
        requires
            0 <= x < 64,
            0 <= y < 4,
    ;
    assert((w - 1) % 256 + x * 256 == w - 1);
    assert((h - 1) % 4 + (((h - 1) / 4) % 256) * 4 + ((h - 1) / 1024) * 1024 == h - 1);
}

/// An extended (`VP8X`) header with width−1 and height−1 as 24-bit
/// little-endian fields at payload bytes 4..7 and 7..10 is read back as that
/// width and height.
pub proof fn lemma_webp_extended_size(d: Seq<u8>, w: int, h: int)
    requires
        riff_webp_with(d, seq![0x56u8, 0x50u8, 0x38u8, 0x58u8]),
        1 <= w <= 16777216,
        1 <= h <= 16777216,
        d[24] == (w - 1) % 256,
        d[25] == ((w - 1) / 256) % 256,
        d[26] == (w - 1) / 65536,
        d[27] == (h - 1) % 256,
        d[28] == ((h - 1) / 256) % 256,
        d[29] == (h - 1) / 65536,
    ensures
        webp_size(d) == Some((w as u32, h as u32)),
{
    reveal_tags(d);
    let p = d.subrange(20, d.len() as int);
    assert(p[4] == d[24] && p[5] == d[25] && p[6] == d[26]);
    assert(p[7] == d[27] && p[8] == d[28] && p[9] == d[29]);
    assert((w - 1) % 256 + (((w - 1) / 256) % 256) * 256 + ((w - 1) / 65536) * 65536 == w - 1);
    assert((h - 1) % 256 + (((h - 1) / 256) % 256) * 256 + ((h - 1) / 65536) * 65536 == h - 1);
}

/// A lossy (`VP8 `) header of at least 31 bytes with width and height as
/// 16-bit little-endian fields at payload bytes 6..8 and 8..10 is read back
/// as that width and height.
pub proof fn lemma_webp_lossy_size(d: Seq<u8>, w: int, h: int)
    requires
        riff_webp_with(d, seq![0x56u8, 0x50u8, 0x38u8, 0x20u8]),
        d.len() >= 31,
        0 <= w < 65536,
        0 <= h < 65536,
        d[26] == w % 256,
        d[27] == w / 256,
        d[28] == h % 256,
        d[29] == h / 256,
    ensures
        webp_size(d) == Some((w as u32, h as u32)),
{
    reveal_tags(d);
    let p = d.subrange(20, d.len() as int);
    assert(p[6] == d[26] && p[7] == d[27] && p[8] == d[28] && p[9] == d[29]);
}

/// Whatever a lossless or extended header holds, the size read is at least
/// 1×1 and at most 16384×16384 (lossless) or 2^24×2^24 (extended).
pub proof fn lemma_webp_size_bounds(d: Seq<u8>)
    ensures
        riff_webp_with(d, seq![0x56u8, 0x50u8, 0x38u8, 0x4cu8]) ==> (webp_size(d) matches Some(
            (w, h),
        ) && 1 <= w <= 16384 && 1 <= h <= 16384),
        riff_webp_with(d, seq![0x56u8, 0x50u8, 0x38u8, 0x58u8]) ==> (webp_size(d) matches Some(
            (w, h),
        ) && 1 <= w <= 16777216 && 1 <= h <= 16777216),
        d.len() < 30 ==> webp_size(d) is None,
        !(d.len() >= 30 && d[0] == 0x52u8 && d[1] == 0x49u8 && d[2] == 0x46u8 && d[3] == 0x46u8
            && d[8] == 0x57u8 && d[9] == 0x45u8 && d[10] == 0x42u8 && d[11] == 0x50u8)
            ==> webp_size(d) is None,
        d.len() >= 30 && d.subrange(12, 16) != seq![0x56u8, 0x50u8, 0x38u8, 0x20u8] && d.subrange(
            12,
            16,
        ) != seq![0x56u8, 0x50u8, 0x38u8, 0x4cu8] && d.subrange(12, 16) != seq![
            0x56u8,
            0x50u8,
            0x38u8,
            0x58u8,
        ] ==> webp_size(d) is None,
{
    if d.len() >= 30 {
        reveal_tags(d);
        if d.subrange(0, 4) == tag('R', 'I', 'F', 'F') {
            assert(d.subrange(0, 4)[0] == d[0] && d.subrange(0, 4)[1] == d[1]);
            assert(d.subrange(0, 4)[2] == d[2] && d.subrange(0, 4)[3] == d[3]);
        }
        if d.subrange(8, 12) == tag('W', 'E', 'B', 'P') {
            assert(d.subrange(8, 12)[0] == d[8] && d.subrange(8, 12)[1] == d[9]);
            assert(d.subrange(8, 12)[2] == d[10] && d.subrange(8, 12)[3] == d[11]);
        }
    }
}

/// The header tags spelled out as bytes.
proof fn reveal_tags(d: Seq<u8>)
    requires
        d.len() >= 30,
    ensures
        tag('R', 'I', 'F', 'F') == seq![0x52u8, 0x49u8, 0x46u8, 0x46u8],
        tag('W', 'E', 'B', 'P') == seq![0x57u8, 0x45u8, 0x42u8, 0x50u8],
        tag('V', 'P', '8', ' ') == seq![0x56u8, 0x50u8, 0x38u8, 0x20u8],
        tag('V', 'P', '8', 'L') == seq![0x56u8, 0x50u8, 0x38u8, 0x4cu8],
        tag('V', 'P', '8', 'X') == seq![0x56u8, 0x50u8, 0x38u8, 0x58u8],
        d[0] == 0x52u8 && d[1] == 0x49u8 && d[2] == 0x46u8 && d[3] == 0x46u8 ==> d.subrange(0, 4)
            == tag('R', 'I', 'F', 'F'),
        d[8] == 0x57u8 && d[9] == 0x45u8 && d[10] == 0x42u8 && d[11] == 0x50u8 ==> d.subrange(8, 12)
            == tag('W', 'E', 'B', 'P'),
{
    assert(tag('R', 'I', 'F', 'F') =~= seq![0x52u8, 0x49u8, 0x46u8, 0x46u8]);
    assert(tag('W', 'E', 'B', 'P') =~= seq![0x57u8, 0x45u8, 0x42u8, 0x50u8]);
    assert(tag('V', 'P', '8', ' ') =~= seq![0x56u8, 0x50u8, 0x38u8, 0x20u8]);
    assert(tag('V', 'P', '8', 'L') =~= seq![0x56u8, 0x50u8, 0x38u8, 0x4cu8]);
    assert(tag('V', 'P', '8', 'X') =~= seq![0x56u8, 0x50u8, 0x38u8, 0x58u8]);
    if d[0] == 0x52u8 && d[1] == 0x49u8 && d[2] == 0x46u8 && d[3] == 0x46u8 {
        assert(d.subrange(0, 4) =~= tag('R', 'I', 'F', 'F'));
    }
    if d[8] == 0x57u8 && d[9] == 0x45u8 && d[10] == 0x42u8 && d[11] == 0x50u8 {
        assert(d.subrange(8, 12) =~= tag('W', 'E', 'B', 'P'));
    }
}

fn bytes_are(d: &[u8], at: usize, a: u8, b: u8, c: u8, e: u8) -> (r: bool)
    requires
        at + 4 <= d@.len(),
    ensures
        r == (d@.subrange(at as int, at + 4) == seq![a, b, c, e]),
{
    let r = d[at] == a && d[at + 1] == b && d[at + 2] == c && d[at + 3] == e;
    proof {
        if !r {
            let s = d@.subrange(at as int, at + 4);
            if s == seq![a, b, c, e] {
                assert(s[0] == a && s[1] == b && s[2] == c && s[3] == e);
            }
        } else {
            assert(d@.subrange(at as int, at + 4) =~= seq![a, b, c, e]);
        }
    }
    r
}

/// Reads the image size from a WebP header without decoding pixels.
pub fn webp_dimensions(data: &[u8]) -> (r: Option<(u32, u32)>)
    ensures
        r == webp_size(data@),
{
    if data.len() < 30 || !bytes_are(data, 0, 'R' as u8, 'I' as u8, 'F' as u8, 'F' as u8) || !bytes_are(
        data,
        8,
        'W' as u8,
        'E' as u8,
        'B' as u8,
        'P' as u8,
    ) {
        return None;
    }
    let ghost p = data@.subrange(20, data@.len() as int);
    if bytes_are(data, 12, 'V' as u8, 'P' as u8, '8' as u8, ' ' as u8) {
        if data.len() - 20 < 11 {
            return None;
        }
        let w: u32 = data[26] as u32 + (data[27] as u32) * 256;
        let h: u32 = data[28] as u32 + (data[29] as u32) * 256;
        assert(p[6] == data@[26] && p[7] == data@[27] && p[8] == data@[28] && p[9] == data@[29]);
        Some((w, h))
    } else if bytes_are(data, 12, 'V' as u8, 'P' as u8, '8' as u8, 'L' as u8) {
        let b0 = data[21] as u32;
        let b1 = data[22] as u32;
        let b2 = data[23] as u32;
        let b3 = data[24] as u32;
        let w: u32 = b0 + (b1 % 64) * 256 + 1;
        let h: u32 = b1 / 64 + b2 * 4 + (b3 % 16) * 1024 + 1;
        assert(p[1] == data@[21] && p[2] == data@[22] && p[3] == data@[23] && p[4] == data@[24]);
        Some((w, h))
    } else if bytes_are(data, 12, 'V' as u8, 'P' as u8, '8' as u8, 'X' as u8) {
        let w: u32 = data[24] as u32 + (data[25] as u32) * 256 + (data[26] as u32) * 65536;
        let h: u32 = data[27] as u32 + (data[28] as u32) * 256 + (data[29] as u32) * 65536;
        assert(p[4] == data@[24] && p[5] == data@[25] && p[6] == data@[26]);
        assert(p[7] == data@[27] && p[8] == data@[28] && p[9] == data@[29]);
        Some((w + 1, h + 1))
    } else {
        None
    }
}


/// The base64 alphabet: the character standing for a 6-bit value.
pub open spec fn b64_char(v: int) -> char {
    if v < 26 {
        (65 + v) as char
    } else if v < 52 {
        (97 + (v - 26)) as char
    } else if v < 62 {
        (48 + (v - 52)) as char
    } else if v == 62 {
        '+'
    } else {
        '/'
    }
}

/// The 6-bit value a base64 character stands for, or `None` for a character
/// outside the alphabet.
pub open spec fn b64_value(c: char) -> Option<u8> {
    if 'A' <= c && c <= 'Z' {
        Some((c as u32 - 65) as u8)
    } else if 'a' <= c && c <= 'z' {
        Some((c as u32 - 97 + 26) as u8)
    } else if '0' <= c && c <= '9' {
        Some((c as u32 - 48 + 52) as u8)
    } else if c == '+' {
        Some(62u8)
    } else if c == '/' {
        Some(63u8)
    } else {
        None
    }
}

/// The four characters encoding one group of one to three bytes; missing
/// bytes count as zero and their places are padded with `=`.
pub open spec fn encode_group(g: Seq<u8>) -> Seq<char> {
    let b0 = g[0];
    let b1: u8 = if g.len() > 1 { g[1] } else { 0 };
    let b2: u8 = if g.len() > 2 { g[2] } else { 0 };
    seq![
        b64_char(b0 as int / 4),
        b64_char((b0 % 4) * 16 + b1 / 16),
        if g.len() > 1 { b64_char((b1 % 16) * 4 + b2 / 64) } else { '=' },
        if g.len() > 2 { b64_char(b2 as int % 64) } else { '=' },
    ]
}

/// Standard padded base64 of `d`, three bytes to four characters.
pub open spec fn b64_encode(d: Seq<u8>) -> Seq<char>
    decreases d.len(),
{
    if d.len() == 0 {
        seq![]
    } else if d.len() <= 3 {
        encode_group(d)
    } else {
        encode_group(d.take(3)) + b64_encode(d.skip(3))
    }
}

fn b64_char_exec(v: u32) -> (c: char)
    requires
        v < 64,
    ensures
        c == b64_char(v as int),
{
    if v < 26 {
        ((65 + v) as u8) as char
    } else if v < 52 {
        ((97 + (v - 26)) as u8) as char
    } else if v < 62 {
        ((48 + (v - 52)) as u8) as char
    } else if v == 62 {
        '+'
    } else {
        '/'
    }
}

/// Encodes bytes as standard padded base64.
pub fn base64_encode(data: &[u8]) -> (out: String)
    ensures
        out@ == b64_encode(data@),
{
    let mut out = String::new();
    let n = data.len();
    let mut i: usize = 0;
    proof {
        assert(data@.skip(0) =~= data@);
    }
    while i < n
        invariant
            n == data@.len(),
            i <= n,
            b64_encode(data@) == out@ + b64_encode(data@.skip(i as int)),
        decreases n - i,
    {
        let rest = n - i;
        let b0 = data[i] as u32;
        let b1: u32 = if rest > 1 { data[i + 1] as u32 } else { 0 };
        let b2: u32 = if rest > 2 { data[i + 2] as u32 } else { 0 };
        let ghost g = if rest <= 3 { data@.skip(i as int) } else { data@.skip(i as int).take(3) };
        let ghost before = out@;
        push_char(&mut out, b64_char_exec(b0 / 4));
        push_char(&mut out, b64_char_exec((b0 % 4) * 16 + b1 / 16));
        if rest > 1 {
            push_char(&mut out, b64_char_exec((b1 % 16) * 4 + b2 / 64));
        } else {
            push_char(&mut out, '=');
        }
        if rest > 2 {
            push_char(&mut out, b64_char_exec(b2 % 64));
        } else {
            push_char(&mut out, '=');
        }
        proof {
            assert(g[0] == data@[i as int]);
            if rest > 1 {
                assert(g[1] == data@[i + 1]);
            }
            if rest > 2 {
                assert(g[2] == data@[i + 2]);
            }
            assert(out@ =~= before + encode_group(g));
            if rest > 3 {
                assert(data@.skip(i as int).skip(3) =~= data@.skip(i + 3));
            } else {
                assert(data@.skip(n as int) =~= Seq::<u8>::empty());
            }
        }
        i = if rest > 3 { i + 3 } else { n };
    }
    proof {
        assert(data@.skip(n as int) =~= Seq::<u8>::empty());
    }
    out
}

/// The standard base64 alphabet (RFC 4648): the character for the 6-bit
/// value `v` is its `v`-th character.
pub open spec fn standard_alphabet() -> Seq<char> {
    "ABCDEFGHIJKLMNOPQRSTUVWXYZabcdefghijklmnopqrstuvwxyz0123456789+/"@
}

/// Each 6-bit value is written as its character of the standard alphabet,
/// and that character is read back as the value.
pub proof fn lemma_base64_alphabet(v: int)
    requires
        0 <= v < 64,
    ensures
        b64_char(v) == standard_alphabet()[v],
        b64_value(standard_alphabet()[v]) == Some(v as u8),
{
    reveal_strlit("ABCDEFGHIJKLMNOPQRSTUVWXYZabcdefghijklmnopqrstuvwxyz0123456789+/");
    assert(standard_alphabet().len() == 64);
}

/// Encoding writes each three bytes as four characters of the standard
/// alphabet (the bytes' 24 bits split into four 6-bit values, high bits
/// first) and goes on with the rest; a last group of two bytes or one byte
/// is padded with `=`, and nothing is written for no bytes.
pub proof fn lemma_base64_encoding(b0: u8, b1: u8, b2: u8, rest: Seq<u8>)
    ensures
        ({
            let a = standard_alphabet();
            &&& b64_encode(seq![b0, b1, b2] + rest) == seq![
                a[b0 as int / 4],
                a[(b0 % 4) * 16 + b1 / 16],
                a[(b1 % 16) * 4 + b2 / 64],
                a[b2 as int % 64],
            ] + b64_encode(rest)
            &&& b64_encode(seq![b0, b1]) == seq![a[b0 as int / 4], a[(b0 % 4) * 16 + b1 / 16], a[(b1 % 16) * 4], '=']
            &&& b64_encode(seq![b0]) == seq![a[b0 as int / 4], a[(b0 % 4) * 16], '=', '=']
            &&& b64_encode(Seq::<u8>::empty()) == Seq::<char>::empty()
        }),
{
    let a = standard_alphabet();
    lemma_base64_alphabet(b0 as int / 4);
    lemma_base64_alphabet((b0 % 4) * 16 + b1 / 16);
    lemma_base64_alphabet((b1 % 16) * 4 + b2 / 64);
    lemma_base64_alphabet(b2 as int % 64);
    lemma_base64_alphabet((b1 % 16) * 4);
    lemma_base64_alphabet((b0 % 4) * 16);
    let d = seq![b0, b1, b2] + rest;
    if rest.len() == 0 {
        assert(d =~= seq![b0, b1, b2]);
        assert(b64_encode(d) =~= encode_group(seq![b0, b1, b2]) + b64_encode(rest));
    } else {
        assert(d.take(3) =~= seq![b0, b1, b2]);
        assert(d.skip(3) =~= rest);
    }
    assert(encode_group(seq![b0, b1, b2]) =~= seq![
        a[b0 as int / 4],
        a[(b0 % 4) * 16 + b1 / 16],
        a[(b1 % 16) * 4 + b2 / 64],
        a[b2 as int % 64],
    ]);
    assert(encode_group(seq![b0, b1]) =~= seq![a[b0 as int / 4], a[(b0 % 4) * 16 + b1 / 16], a[(b1 % 16) * 4], '=']);
    assert(encode_group(seq![b0]) =~= seq![a[b0 as int / 4], a[(b0 % 4) * 16], '=', '=']);
}

/// Four characters of the standard alphabet decode to the three bytes whose
/// bits they carry.
pub proof fn lemma_base64_decoding(b0: u8, b1: u8, b2: u8)
    ensures
        ({
            let a = standard_alphabet();
            b64_decode(
                seq![a[b0 as int / 4], a[(b0 % 4) * 16 + b1 / 16], a[(b1 % 16) * 4 + b2 / 64], a[b2 as int % 64]],
            ) == Ok::<Seq<u8>, Seq<char>>(seq![b0, b1, b2])
        }),
{
    lemma_base64_encoding(b0, b1, b2, Seq::<u8>::empty());
    assert(seq![b0, b1, b2] + Seq::<u8>::empty() =~= seq![b0, b1, b2]);
    lemma_base64_roundtrip(seq![b0, b1, b2]);
    let a = standard_alphabet();
    assert(seq![a[b0 as int / 4], a[(b0 % 4) * 16 + b1 / 16], a[(b1 % 16) * 4 + b2 / 64], a[b2 as int % 64]]
        + Seq::<char>::empty() =~= seq![
        a[b0 as int / 4],
        a[(b0 % 4) * 16 + b1 / 16],
        a[(b1 % 16) * 4 + b2 / 64],
        a[b2 as int % 64],
    ]);
}

/// Characters a decoder passes over: padding and line breaks or spaces.
pub open spec fn b64_skipped(c: char) -> bool {
    c == '=' || c == '\n' || c == '\r' || c == ' '
}

/// The 6-bit values of the characters of `s`, skipping padding and
/// whitespace; `None` when some other character is outside the alphabet.
pub open spec fn sextets_of(s: Seq<char>) -> Option<Seq<u8>>
    decreases s.len(),
{
    if s.len() == 0 {
        Some(seq![])
    } else if b64_skipped(s[0]) {
        sextets_of(s.drop_first())
    } else {
        match b64_value(s[0]) {
            None => None,
            Some(v) => match sextets_of(s.drop_first()) {
                None => None,
                Some(rest) => Some(seq![v] + rest),
            },
        }
    }
}

/// The bytes packed in a run of 6-bit values, four values to three bytes; a
/// trailing run of two or three values gives one or two bytes, a lone value none.
pub open spec fn bytes_of_sextets(s: Seq<u8>) -> Seq<u8>
    decreases s.len(),
{
    if s.len() >= 4 {
        seq![
            (s[0] * 4 + s[1] / 16) as u8,
            ((s[1] % 16) * 16 + s[2] / 4) as u8,
            ((s[2] % 4) * 64 + s[3]) as u8,
        ] + bytes_of_sextets(s.skip(4))
    } else if s.len() == 3 {
        seq![(s[0] * 4 + s[1] / 16) as u8, ((s[1] % 16) * 16 + s[2] / 4) as u8]
    } else if s.len() == 2 {
        seq![(s[0] * 4 + s[1] / 16) as u8]
    } else {
        seq![]
    }
}

/// The message of a decoding failure.
pub open spec fn b64_error() -> Seq<char> {
    "base64 含非法字符"@
}

/// Decoding of base64 text: the bytes, or the failure message when a
/// character outside the alphabet occurs (padding, `\n`, `\r` and spaces are
/// passed over wherever they stand).
pub open spec fn b64_decode(s: Seq<char>) -> Result<Seq<u8>, Seq<char>> {
    match sextets_of(s) {
        Some(v) => Ok(bytes_of_sextets(v)),
        None => Err(b64_error()),
    }
}

/// A character has a 6-bit value exactly when it is in the standard
/// alphabet, and that value is its place there.
proof fn lemma_value_in_alphabet(c: char)
    ensures
        b64_value(c) is Some <==> standard_alphabet().contains(c),
        b64_value(c) matches Some(v) ==> v < 64 && standard_alphabet()[v as int] == c,
{
    reveal_strlit("ABCDEFGHIJKLMNOPQRSTUVWXYZabcdefghijklmnopqrstuvwxyz0123456789+/");
    let a = standard_alphabet();
    if b64_value(c) is Some {
        let v = b64_value(c)->0;
        lemma_base64_alphabet(v as int);
        assert(a[v as int] == b64_char(v as int));
        assert(b64_char(v as int) == c);
    } else {
        assert forall|i: int| 0 <= i < a.len() implies a[i] != c by {
            lemma_base64_alphabet(i);
        }
    }
}

/// Decoding accepts exactly the texts made of characters of the standard
/// alphabet, padding (`=`), spaces and line breaks (`\n`, `\r`); any other
/// character makes it fail.
pub proof fn lemma_base64_accepted_text(s: Seq<char>)
    ensures
        b64_decode(s) is Ok <==> forall|k: int|
            0 <= k < s.len() ==> {
                let c = #[trigger] s[k];
                standard_alphabet().contains(c) || c == '=' || c == ' ' || c == '\n' || c == '\r'
            },
    decreases s.len(),
{
    if s.len() > 0 {
        let t = s.drop_first();
        lemma_base64_accepted_text(t);
        lemma_value_in_alphabet(s[0]);
        assert forall|k: int| 1 <= k < s.len() implies s[k] == t[k - 1] by {}
        if !(forall|k: int|
            0 <= k < t.len() ==> {
                let c = #[trigger] t[k];
                standard_alphabet().contains(c) || c == '=' || c == ' ' || c == '\n' || c == '\r'
            }) {
            let k = choose|k: int|
                0 <= k < t.len() && !{
                    let c = #[trigger] t[k];
                    standard_alphabet().contains(c) || c == '=' || c == ' ' || c == '\n' || c
                        == '\r'
                };
            assert(s[k + 1] == t[k]);
        }
    }
}

fn b64_value_exec(c: char) -> (r: Option<u8>)
    ensures
        r == b64_value(c),
{
    if 'A' <= c && c <= 'Z' {
        Some(((c as u32) - 65) as u8)
    } else if 'a' <= c && c <= 'z' {
        Some(((c as u32) - 97 + 26) as u8)
    } else if '0' <= c && c <= '9' {
        Some(((c as u32) - 48 + 52) as u8)
    } else if c == '+' {
        Some(62)
    } else if c == '/' {
        Some(63)
    } else {
        None
    }
}

/// Decodes base64 text into bytes, passing over padding and whitespace.
pub fn base64_decode(input: &str) -> (r: Result<Vec<u8>, String>)
    ensures
        match b64_decode(input@) {
            Ok(b) => r is Ok && r->Ok_0@ == b,
            Err(m) => r is Err && r->Err_0@ == m,
        },
{
    let cs = chars_of(input);
    let n = cs.len();
    let mut vals: Vec<u8> = Vec::new();
    let mut i: usize = 0;
    proof {
        assert(cs@.skip(0) =~= cs@);
    }
    while i < n
        invariant
            n == cs@.len(),
            cs@ == input@,
            i <= n,
            forall|k: int| 0 <= k < vals@.len() ==> #[trigger] vals@[k] < 64,
            sextets_of(cs@) == match sextets_of(cs@.skip(i as int)) {
                Some(rest) => Some(vals@ + rest),
                None => None::<Seq<u8>>,
            },
        decreases n - i,
    {
        let c = cs[i];
        proof {
            assert(cs@.skip(i as int).drop_first() =~= cs@.skip(i + 1));
            assert(cs@.skip(i as int)[0] == c);
        }
        if !(c == '=' || c == '\n' || c == '\r' || c == ' ') {
            match b64_value_exec(c) {
                None => {
                    return Err(String::from_str("base64 含非法字符"));
                },
                Some(v) => {
                    let ghost before = vals@;
                    vals.push(v);
                    proof {
                        match sextets_of(cs@.skip(i + 1)) {
                            Some(rest) => {
                                assert(before + (seq![v] + rest) =~= vals@ + rest);
                            },
                            None => {},
                        }
                    }
                },
            }
        }
        i = i + 1;
    }
    proof {
        assert(cs@.skip(n as int) =~= Seq::<char>::empty());
        assert(vals@ + Seq::<u8>::empty() =~= vals@);
    }
    let mut out: Vec<u8> = Vec::new();
    let m = vals.len();
    let mut j: usize = 0;
    proof {
        assert(vals@.skip(0) =~= vals@);
    }
    while j < m
        invariant
            m == vals@.len(),
            j <= m,
            forall|k: int| 0 <= k < vals@.len() ==> #[trigger] vals@[k] < 64,
            bytes_of_sextets(vals@) == out@ + bytes_of_sextets(vals@.skip(j as int)),
        decreases m - j,
    {
        let rest = m - j;
        let ghost s = vals@.skip(j as int);
        let ghost before = out@;
        if rest >= 4 {
            let s0 = vals[j] as u32;
            let s1 = vals[j + 1] as u32;
            let s2 = vals[j + 2] as u32;
            let s3 = vals[j + 3] as u32;
            assert(s0 < 64 && s1 < 64 && s2 < 64 && s3 < 64) by {
                assert(vals@[j as int] < 64 && vals@[j + 1] < 64 && vals@[j + 2] < 64 && vals@[j
                    + 3] < 64);
            }
            out.push((s0 * 4 + s1 / 16) as u8);
            out.push(((s1 % 16) * 16 + s2 / 4) as u8);
            out.push(((s2 % 4) * 64 + s3) as u8);
            proof {
                assert(s[0] == s0 && s[1] == s1 && s[2] == s2 && s[3] == s3);
                assert(s.skip(4) =~= vals@.skip(j + 4));
            }
            j = j + 4;
        } else {
            let s0 = vals[j] as u32;
            if rest >= 2 {
                let s1 = vals[j + 1] as u32;
                assert(s0 < 64 && s1 < 64) by {
                    assert(vals@[j as int] < 64 && vals@[j + 1] < 64);
                }
                out.push((s0 * 4 + s1 / 16) as u8);
                if rest == 3 {
                    let s2 = vals[j + 2] as u32;
                    assert(s2 < 64) by {
                        assert(vals@[j + 2] < 64);
                    }
                    out.push(((s1 % 16) * 16 + s2 / 4) as u8);
                }
            }
            proof {
                assert(s[0] == s0);
                if rest >= 2 {
                    assert(s[1] == vals@[j + 1]);
                }
                if rest == 3 {
                    assert(s[2] == vals@[j + 2]);
                }
                assert(vals@.skip(m as int) =~= Seq::<u8>::empty());
            }
            j = m;
        }
    }
    proof {
        assert(vals@.skip(m as int) =~= Seq::<u8>::empty());
    }
    Ok(out)
}


proof fn lemma_char_value(v: int)
    requires
        0 <= v < 64,
    ensures
        b64_value(b64_char(v)) == Some(v as u8),
        !b64_skipped(b64_char(v)),
{
}

proof fn lemma_sextets_concat(a: Seq<char>, b: Seq<char>)
    ensures
        sextets_of(a + b) == match (sextets_of(a), sextets_of(b)) {
            (Some(x), Some(y)) => Some(x + y),
            _ => None::<Seq<u8>>,
        },
    decreases a.len(),
{
    if a.len() == 0 {
        assert(a + b =~= b);
        match sextets_of(b) {
            Some(y) => {
                assert(Seq::<u8>::empty() + y =~= y);
            },
            None => {},
        }
    } else {
        assert((a + b).drop_first() =~= a.drop_first() + b);
        lemma_sextets_concat(a.drop_first(), b);
        match (sextets_of(a.drop_first()), sextets_of(b)) {
            (Some(x), Some(y)) => {
                if let Some(v) = b64_value(a[0]) {
                    assert(seq![v] + (x + y) =~= (seq![v] + x) + y);
                }
            },
            _ => {},
        }
    }
}

/// The 6-bit values of one encoded group (padding dropped).
spec fn group_sextets(g: Seq<u8>) -> Seq<u8> {
    let b0 = g[0];
    let b1: u8 = if g.len() > 1 { g[1] } else { 0 };
    let b2: u8 = if g.len() > 2 { g[2] } else { 0 };
    let v0 = (b0 / 4) as u8;
    let v1 = ((b0 % 4) * 16 + b1 / 16) as u8;
    let v2 = ((b1 % 16) * 4 + b2 / 64) as u8;
    let v3 = (b2 % 64) as u8;
    if g.len() == 1 {
        seq![v0, v1]
    } else if g.len() == 2 {
        seq![v0, v1, v2]
    } else {
        seq![v0, v1, v2, v3]
    }
}

proof fn lemma_group_sextets(g: Seq<u8>)
    requires
        1 <= g.len() <= 3,
    ensures
        sextets_of(encode_group(g)) == Some(group_sextets(g)),
        bytes_of_sextets(group_sextets(g)) == g,
{
    let b0 = g[0];
    let b1: u8 = if g.len() > 1 { g[1] } else { 0 };
    let b2: u8 = if g.len() > 2 { g[2] } else { 0 };
    let v0 = b0 as int / 4;
    let v1 = (b0 as int % 4) * 16 + b1 as int / 16;
    let v2 = (b1 as int % 16) * 4 + b2 as int / 64;
    let v3 = b2 as int % 64;
    lemma_char_value(v0);
    lemma_char_value(v1);
    lemma_char_value(v2);
    lemma_char_value(v3);
    let e = encode_group(g);
    assert(e.drop_first().drop_first().drop_first().drop_first() =~= Seq::<char>::empty());
    assert(sextets_of(e.drop_first().drop_first().drop_first()) == if g.len() > 2 {
        Some(seq![v3 as u8])
    } else {
        Some(Seq::<u8>::empty())
    }) by {
        assert(sextets_of(Seq::<char>::empty()) == Some(Seq::<u8>::empty()));
        if g.len() > 2 {
            assert(seq![v3 as u8] + Seq::<u8>::empty() =~= seq![v3 as u8]);
        }
    }
    assert(sextets_of(e.drop_first().drop_first()) == if g.len() > 2 {
        Some(seq![v2 as u8, v3 as u8])
    } else if g.len() > 1 {
        Some(seq![v2 as u8])
    } else {
        Some(Seq::<u8>::empty())
    }) by {
        if g.len() > 2 {
            assert(seq![v2 as u8] + seq![v3 as u8] =~= seq![v2 as u8, v3 as u8]);
        } else if g.len() > 1 {
            assert(seq![v2 as u8] + Seq::<u8>::empty() =~= seq![v2 as u8]);
        }
    }
    assert(sextets_of(e.drop_first()) == Some(seq![v1 as u8] + sextets_of(e.drop_first().drop_first()).unwrap()));
    assert(sextets_of(e) == Some(seq![v0 as u8] + sextets_of(e.drop_first()).unwrap()));
    if g.len() == 1 {
        assert(sextets_of(e).unwrap() =~= group_sextets(g));
        assert(bytes_of_sextets(group_sextets(g)) =~= g);
    } else if g.len() == 2 {
        assert(sextets_of(e).unwrap() =~= group_sextets(g));
        assert(bytes_of_sextets(group_sextets(g)) =~= g);
    } else {
        assert(sextets_of(e).unwrap() =~= group_sextets(g));
        let s = group_sextets(g);
        assert(s.skip(4) =~= Seq::<u8>::empty());
        assert(bytes_of_sextets(Seq::<u8>::empty()) =~= Seq::<u8>::empty());
        assert((v2 % 4) * 64 + v3 == b2 as int) by {
            assert(v2 % 4 == b2 as int / 64);
        }
        assert(bytes_of_sextets(s) =~= g);
    }
}

/// Decoding the encoding of any bytes gives the bytes back.
pub proof fn lemma_base64_roundtrip(d: Seq<u8>)
    ensures
        b64_decode(b64_encode(d)) == Ok::<Seq<u8>, Seq<char>>(d),
    decreases d.len(),
{
    if d.len() == 0 {
        assert(d =~= Seq::<u8>::empty());
        assert(bytes_of_sextets(Seq::<u8>::empty()) =~= Seq::<u8>::empty());
    } else if d.len() <= 3 {
        lemma_group_sextets(d);
    } else {
        let g = d.take(3);
        let rest = d.skip(3);
        lemma_group_sextets(g);
        lemma_base64_roundtrip(rest);
        lemma_sextets_concat(encode_group(g), b64_encode(rest));
        assert(b64_encode(d) == encode_group(g) + b64_encode(rest));
        let gs = group_sextets(g);
        let rs = sextets_of(b64_encode(rest)).unwrap();
        assert(sextets_of(b64_encode(rest)) is Some);
        assert(bytes_of_sextets(rs) == rest);
        assert(sextets_of(b64_encode(d)) == Some(gs + rs));
        assert((gs + rs).skip(4) =~= rs);
        assert(bytes_of_sextets(gs + rs) =~= g + bytes_of_sextets(rs));
        assert(g + rest =~= d);
        assert(b64_decode(b64_encode(d)) == Ok::<Seq<u8>, Seq<char>>(bytes_of_sextets(gs + rs)));
    }
}

/// How many `=` end the base64 of `n` bytes.
pub open spec fn b64_pads(n: nat) -> nat {
    if n % 3 == 0 {
        0
    } else {
        (3 - n % 3) as nat
    }
}

/// The shape of `r` as the base64 of `n` bytes: four characters per group of
/// up to three bytes, alphabet characters first, then `b64_pads(n)` times `=`.
pub open spec fn b64_shaped(r: Seq<char>, n: nat) -> bool {
    &&& r.len() == 4 * ((n + 2) / 3)
    &&& forall|i: int|
        0 <= i < r.len() - b64_pads(n) ==> (#[trigger] b64_value(r[i])) is Some
    &&& forall|i: int| r.len() - b64_pads(n) <= i < r.len() ==> #[trigger] r[i] == '='
}

proof fn lemma_group_shape(g: Seq<u8>)
    requires
        1 <= g.len() <= 3,
    ensures
        b64_shaped(encode_group(g), g.len()),
{
    let b0 = g[0];
    let b1: u8 = if g.len() > 1 { g[1] } else { 0 };
    let b2: u8 = if g.len() > 2 { g[2] } else { 0 };
    lemma_char_value(b0 as int / 4);
    assert((b0 % 4) * 16 + b1 / 16 < 64) by (nonlinear_arith)
        requires
            b0 < 256,
            b1 < 256,
    ;
    lemma_char_value((b0 % 4) * 16 + b1 / 16);
    assert((b1 % 16) * 4 + b2 / 64 < 64) by (nonlinear_arith)
        requires
            b1 < 256,
            b2 < 256,
    ;
    lemma_char_value((b1 % 16) * 4 + b2 / 64);
    lemma_char_value(b2 as int % 64);
    let r = encode_group(g);
    assert(r.len() == 4);
}

/// The base64 of `n` bytes is `4 * ceil(n / 3)` characters: alphabet
/// characters, then `==` when `n % 3 == 1`, one `=` when `n % 3 == 2`, and no
/// padding when `n % 3 == 0`.
pub proof fn lemma_base64_shape(d: Seq<u8>)
    ensures
        b64_shaped(b64_encode(d), d.len()),
    decreases d.len(),
{
    if d.len() == 0 {
    } else if d.len() <= 3 {
        lemma_group_shape(d);
    } else {
        let g = d.take(3);
        let rest = d.skip(3);
        lemma_group_shape(g);
        lemma_base64_shape(rest);
        let a = encode_group(g);
        let b = b64_encode(rest);
        let r = a + b;
        assert(b64_encode(d) == r);
        assert(b64_pads(d.len()) == b64_pads(rest.len()));
        assert(r.len() == 4 * ((d.len() + 2) / 3));
        assert forall|i: int| 0 <= i < r.len() - b64_pads(d.len()) implies (#[trigger] b64_value(
            r[i],
        )) is Some by {
            if i < 4 {
                assert(r[i] == a[i]);
            } else {
                assert(r[i] == b[i - 4]);
            }
        }
        assert forall|i: int| r.len() - b64_pads(d.len()) <= i < r.len() implies #[trigger] r[i]
            == '=' by {
            assert(r[i] == b[i - 4]);
        }
    }
}

/// Every character of `s` is a base64 character or one passed over.
pub open spec fn b64_text_ok(s: Seq<char>) -> bool {
    forall|i: int| 0 <= i < s.len() ==> b64_skipped(#[trigger] s[i]) || b64_value(s[i]) is Some
}

/// `s` without the characters a decoder passes over.
pub open spec fn b64_stripped(s: Seq<char>) -> Seq<char>
    decreases s.len(),
{
    if s.len() == 0 {
        s
    } else if b64_skipped(s[0]) {
        b64_stripped(s.drop_first())
    } else {
        seq![s[0]] + b64_stripped(s.drop_first())
    }
}

/// Decoding fails exactly on a character outside the alphabet that is not
/// padding, a line break or a space (a tab, `!`, ...), and it does not
/// change when padding, line breaks and spaces are removed.
pub proof fn lemma_base64_decode_text(s: Seq<char>)
    ensures
        b64_decode(s) is Err <==> !b64_text_ok(s),
        b64_decode(s) == b64_decode(b64_stripped(s)),
        sextets_of(s) == sextets_of(b64_stripped(s)),
    decreases s.len(),
{
    if s.len() == 0 {
    } else {
        let rest = s.drop_first();
        lemma_base64_decode_text(rest);
        if b64_skipped(s[0]) {
            assert(b64_text_ok(s) <==> b64_text_ok(rest)) by {
                if b64_text_ok(rest) {
                    assert forall|i: int| 0 <= i < s.len() implies b64_skipped(#[trigger] s[i])
                        || b64_value(s[i]) is Some by {
                        if i > 0 {
                            assert(s[i] == rest[i - 1]);
                        }
                    }
                }
                if b64_text_ok(s) {
                    assert forall|i: int| 0 <= i < rest.len() implies b64_skipped(#[trigger] rest[i])
                        || b64_value(rest[i]) is Some by {
                        assert(rest[i] == s[i + 1]);
                    }
                }
            }
        } else {
            let t = seq![s[0]] + b64_stripped(rest);
            assert(t[0] == s[0]);
            assert(t.drop_first() =~= b64_stripped(rest));
            assert(b64_text_ok(s) <==> (b64_value(s[0]) is Some && b64_text_ok(rest))) by {
                if b64_value(s[0]) is Some && b64_text_ok(rest) {
                    assert forall|i: int| 0 <= i < s.len() implies b64_skipped(#[trigger] s[i])
                        || b64_value(s[i]) is Some by {
                        if i > 0 {
                            assert(s[i] == rest[i - 1]);
                        }
                    }
                }
                if b64_text_ok(s) {
                    assert(b64_skipped(s[0]) || b64_value(s[0]) is Some);
                    assert forall|i: int| 0 <= i < rest.len() implies b64_skipped(#[trigger] rest[i])
                        || b64_value(rest[i]) is Some by {
                        assert(rest[i] == s[i + 1]);
                    }
                }
            }
        }
    }
}

} // verus!
