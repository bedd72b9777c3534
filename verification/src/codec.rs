//! Encodings and digests that other crates compute: hex, base32, base64, PNG
//! and BLAKE3. Every item marked `external_body` here is trusted; the rest of
//! the library is proved against what these items promise.
use vstd::prelude::*;

use base64::Engine;
use rand_core::RngCore;

use crate::ids::Id;

verus! {

/// The value of a hexadecimal digit, of either case.
pub open spec fn hex_value(c: char) -> Option<int> {
    if '0' <= c <= '9' {
        Some(c as int - '0' as int)
    } else if 'a' <= c <= 'f' {
        Some(c as int - 'a' as int + 10)
    } else if 'A' <= c <= 'F' {
        Some(c as int - 'A' as int + 10)
    } else {
        None
    }
}

/// The lower-case hexadecimal digit of `n`.
pub open spec fn hex_digit(n: int) -> char {
    if n < 10 {
        (48 + n) as char
    } else {
        (87 + n) as char
    }
}

/// Two lower-case hexadecimal digits per byte, high digit first.
pub open spec fn hex_text(bytes: Seq<u8>) -> Seq<char> {
    Seq::new(
        2 * bytes.len(),
        |i: int|
            if i % 2 == 0 {
                hex_digit(bytes[i / 2] as int / 16)
            } else {
                hex_digit(bytes[i / 2] as int % 16)
            },
    )
}

/// `s` has an even number of characters, all of them hexadecimal digits.
pub open spec fn is_hex(s: Seq<char>) -> bool {
    &&& s.len() % 2 == 0
    &&& forall|i: int| 0 <= i < s.len() ==> hex_value(#[trigger] s[i]) is Some
}

/// The bytes whose digits `s` writes out.
pub open spec fn hex_bytes(s: Seq<char>) -> Seq<u8> {
    Seq::new(
        s.len() / 2,
        |i: int| (hex_value(s[2 * i])->0 * 16 + hex_value(s[2 * i + 1])->0) as u8,
    )
}

/// `hex::encode`: the bytes as lower-case hexadecimal digits, two per byte.
#[verifier::external_body]
pub(crate) fn hex_encode_bytes(bytes: &[u8]) -> (r: String)
    ensures
        r@ == hex_text(bytes@),
{
    hex::encode(bytes)
}

/// `hex::decode`: the bytes that the digits, of either case, write out. It
/// fails on an odd number of digits and on any other character.
#[verifier::external_body]
pub(crate) fn hex_decode_text(s: &str) -> (r: Option<Vec<u8>>)
    ensures
        r is Some <==> is_hex(s@),
        r is Some ==> r->0@ == hex_bytes(s@),
{
    hex::decode(s).ok()
}

/// The hexadecimal text of some bytes reads back as the bytes.
pub proof fn hex_reads_back(bytes: Seq<u8>)
    ensures
        is_hex(hex_text(bytes)),
        hex_bytes(hex_text(bytes)) == bytes,
{
    let s = hex_text(bytes);
    assert forall|i: int| 0 <= i < s.len() implies hex_value(#[trigger] s[i]) == Some(
        if i % 2 == 0 {
            bytes[i / 2] as int / 16
        } else {
            bytes[i / 2] as int % 16
        },
    ) by {}
    assert forall|i: int| 0 <= i < bytes.len() implies #[trigger] hex_bytes(s)[i] == bytes[i] by {
        assert((2 * i) / 2 == i && (2 * i + 1) / 2 == i);
        assert(hex_value(s[2 * i]) == Some(bytes[i] as int / 16));
        assert(hex_value(s[2 * i + 1]) == Some(bytes[i] as int % 16));
    }
    assert(hex_bytes(s) =~= bytes);
}

/// What `base32::decode` gives for a text in the unpadded RFC 4648 alphabet.
pub uninterp spec fn base32_decoded(s: Seq<char>) -> Option<Seq<u8>>;

/// `base32::decode` with the unpadded RFC 4648 alphabet: a function of the text.
#[verifier::external_body]
pub(crate) fn base32_decode(s: &str) -> (r: Option<Vec<u8>>)
    ensures
        match r {
            Some(v) => base32_decoded(s@) == Some(v@),
            None => base32_decoded(s@) is None,
        },
{
    base32::decode(base32::Alphabet::Rfc4648 { padding: false }, s)
}

/// What `base32::encode` gives for some bytes in the unpadded RFC 4648 alphabet.
pub uninterp spec fn base32_encoded(bytes: Seq<u8>) -> Seq<char>;

/// A character of the unpadded RFC 4648 base32 alphabet.
pub open spec fn base32_char(c: char) -> bool {
    'A' <= c <= 'Z' || '2' <= c <= '7'
}

/// `base32::encode` with the unpadded RFC 4648 alphabet: a function of the
/// bytes, written in that alphabet, which `base32::decode` turns back into the
/// bytes. It is empty only for no bytes.
#[verifier::external_body]
pub(crate) fn base32_encode(bytes: &[u8]) -> (r: String)
    ensures
        r@ == base32_encoded(bytes@),
        base32_decoded(r@) == Some(bytes@),
        bytes@.len() > 0 ==> r@.len() > 0,
        forall|i: int| 0 <= i < r@.len() ==> base32_char(#[trigger] r@[i]),
{
    base32::encode(base32::Alphabet::Rfc4648 { padding: false }, bytes)
}

/// What base64 decoding with the standard alphabet and padding gives for a text:
/// the bytes, or what is wrong with the text.
pub uninterp spec fn base64_decoded(s: Seq<char>) -> Result<Seq<u8>, Seq<char>>;

/// `base64`'s `Engine::decode` with the standard engine, and the text that it
/// displays its error as: a function of the text.
#[verifier::external_body]
pub(crate) fn base64_decode(s: &str) -> (r: Result<Vec<u8>, String>)
    ensures
        match r {
            Ok(v) => base64_decoded(s@) == Ok::<Seq<u8>, Seq<char>>(v@),
            Err(e) => base64_decoded(s@) == Err::<Seq<u8>, Seq<char>>(e@),
        },
{
    base64::engine::general_purpose::STANDARD.decode(s).map_err(|e| e.to_string())
}

/// What base64 encoding with the standard alphabet and padding gives for some bytes.
pub uninterp spec fn base64_encoded(bytes: Seq<u8>) -> Seq<char>;

/// `base64`'s `Engine::encode` with the standard engine: a function of the
/// bytes, which `Engine::decode` turns back into the bytes. The bound keeps the
/// length of the text, four characters for every three bytes, within `usize`.
#[verifier::external_body]
pub(crate) fn base64_encode(bytes: &[u8]) -> (r: String)
    requires
        bytes@.len() <= 0x2000_0000,
    ensures
        r@ == base64_encoded(bytes@),
        base64_decoded(r@) is Ok && base64_decoded(r@)->Ok_0 == bytes@,
{
    base64::engine::general_purpose::STANDARD.encode(bytes)
}

/// The 32-byte BLAKE3 digest of some bytes.
pub uninterp spec fn blake3_digest(bytes: Seq<u8>) -> Id;

/// `blake3::hash`: a 32-byte digest, a function of the bytes.
#[verifier::external_body]
pub(crate) fn blake3_hash(bytes: &[u8]) -> (r: Id)
    ensures
        r == blake3_digest(bytes@),
{
    *blake3::hash(bytes).as_bytes()
}

/// The width, height and RGBA bytes that the `image` crate reads from a PNG.
pub uninterp spec fn png_pixels(png: Seq<u8>) -> Option<(u32, u32, Seq<u8>)>;

/// `image::load_from_memory_with_format` for PNG, then `to_rgba8`: a function
/// of the bytes; nothing where they do not decode.
#[verifier::external_body]
pub(crate) fn png_decode(png: &[u8]) -> (r: Option<(u32, u32, Vec<u8>)>)
    ensures
        match r {
            Some((w, h, rgba)) => png_pixels(png@) == Some((w, h, rgba@)),
            None => png_pixels(png@) is None,
        },
{
    let img = image::load_from_memory_with_format(png, image::ImageFormat::Png).ok()?;
    let rgba = img.to_rgba8();
    Some((rgba.width(), rgba.height(), rgba.into_raw()))
}

/// The PNG that the `image` crate writes for some RGBA pixels.
pub uninterp spec fn png_file(width: u32, height: u32, rgba: Seq<u8>) -> Option<Seq<u8>>;

/// Most bytes of pixels that are read from a PNG: what the `image` crate allots to
/// a decoder by default.
pub const MAX_ROUND_TRIP: usize = 0x2000_0000;

/// `image::DynamicImage::write_to` for PNG, on RGBA pixels: a function of the
/// size and the bytes. `write_to` wants four bytes for every pixel. PNG loses
/// nothing: the file that it writes is read back as the same size and pixels, up
/// to [`MAX_ROUND_TRIP`], and beyond that is not read at all.
#[verifier::external_body]
pub(crate) fn png_encode(width: u32, height: u32, rgba: Vec<u8>) -> (r: Option<Vec<u8>>)
    requires
        rgba@.len() == width * height * 4,
    ensures
        match r {
            Some(png) => png_file(width, height, rgba@) == Some(png@),
            None => png_file(width, height, rgba@) is None,
        },
        r is Some && rgba@.len() <= MAX_ROUND_TRIP ==> png_pixels(r->0@) == Some(
            (width, height, rgba@),
        ),
        r is Some && rgba@.len() > MAX_ROUND_TRIP ==> png_pixels(r->0@) is None,
{
    let img = image::RgbaImage::from_raw(width, height, rgba)?;
    let mut out = std::io::Cursor::new(Vec::new());
    image::DynamicImage::ImageRgba8(img).write_to(&mut out, image::ImageFormat::Png).ok()?;
    Some(out.into_inner())
}

/// `rand_core::OsRng`: eight bytes of the operating system's randomness, or
/// nothing where it has none to give. Any value may come back.
#[verifier::external_body]
pub(crate) fn os_random() -> (r: Option<u64>) {
    let mut bytes = [0u8; 8];
    rand_core::OsRng.try_fill_bytes(&mut bytes).ok()?;
    Some(u64::from_le_bytes(bytes))
}

} // verus!
