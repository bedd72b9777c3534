//! What a clipboard item is: the hash under which it is known, the label under
//! which it is shown, and the store of recent images.
use vstd::bytes::{spec_u32_to_le_bytes, u32_to_le_bytes};
use vstd::prelude::*;
use vstd::string::*;
use vstd::utf8::{decode_utf8, encode_utf8, valid_utf8};

use crate::codec::{
    blake3_digest, blake3_hash, png_decode, png_encode, png_file, png_pixels, MAX_ROUND_TRIP,
};
use crate::driver::inflight::copy_bytes;
use crate::ids::{same_id, Id};
use crate::text::{
    canon_text, canonical, canonical_form_settles, decimal, decimal_text, line_ends_do_not_matter,
    same_text, trimmed, windows_lines,
};
use crate::wire::{views, Kind};

verus! {

/// `std::str::from_utf8`: the text that the bytes encode, or nothing where they
/// are not UTF-8.
#[verifier::external_body]
fn utf8_text(bytes: &[u8]) -> (r: Option<String>)
    ensures
        r is Some <==> valid_utf8(bytes@),
        r is Some ==> encode_utf8(r->0@) == bytes@,
{
    std::str::from_utf8(bytes).ok().map(str::to_owned)
}

/// The text that `String::from_utf8_lossy` makes of some bytes.
pub uninterp spec fn lossy_text(bytes: Seq<u8>) -> Seq<char>;

/// `String::from_utf8_lossy`: a function of the bytes; the text itself where they
/// are UTF-8.
#[verifier::external_body]
pub(crate) fn utf8_lossy(bytes: &[u8]) -> (r: String)
    ensures
        r@ == lossy_text(bytes@),
        valid_utf8(bytes@) ==> encode_utf8(r@) == bytes@,
{
    String::from_utf8_lossy(bytes).into_owned()
}

/// The text of some bytes: the one that they encode; where they are not UTF-8, what
/// can be made of them.
pub open spec fn shown_text(bytes: Seq<u8>) -> Seq<char> {
    if valid_utf8(bytes) {
        decode_utf8(bytes)
    } else {
        lossy_text(bytes)
    }
}

/// Computes [`shown_text`].
pub fn text_of(bytes: &[u8]) -> (r: String)
    ensures
        r@ == shown_text(bytes@),
        r@ == lossy_text(bytes@),
{
    let text = utf8_lossy(bytes);
    proof {
        vstd::utf8::encode_utf8_decode_utf8(text@);
    }
    text
}

/// The text of an encoded text is the text itself.
pub proof fn encoded_text_is_shown(text: Seq<char>)
    ensures
        shown_text(encode_utf8(text)) == text,
{
    vstd::utf8::encode_utf8_valid_utf8(text);
    vstd::utf8::encode_utf8_decode_utf8(text);
}

/// The hash of a clipboard text: that of its canonical form, so that texts that
/// differ by surrounding space or line ends alone are one.
pub open spec fn text_hash(text: Seq<char>) -> Id {
    blake3_digest(encode_utf8(canonical(text)))
}

/// Computes [`text_hash`].
pub fn clipboard_dedup_hash(text: &str) -> (r: Id)
    ensures
        r == text_hash(text@),
{
    let canon = canon_text(text);
    blake3_hash(canon.as_str().as_bytes())
}

/// A text, the text without the space around it, its canonical form and, where it
/// has no CR of its own, the text with CR LF line ends have one hash.
pub proof fn hash_ignores_space_and_line_ends(text: Seq<char>)
    ensures
        text_hash(trimmed(text)) == text_hash(text),
        text_hash(canonical(text)) == text_hash(text),
        !text.contains('\r') ==> text_hash(windows_lines(text)) == text_hash(text),
{
    canonical_form_settles(text);
    if !text.contains('\r') {
        line_ends_do_not_matter(text);
    }
}

/// The hash of an image: that of its size and pixels, which an encoding to PNG
/// and back does not change.
pub open spec fn image_hash(width: u32, height: u32, rgba: Seq<u8>) -> Id {
    blake3_digest(spec_u32_to_le_bytes(width) + spec_u32_to_le_bytes(height) + rgba)
}

/// Computes [`image_hash`].
pub fn image_rgba_hash(width: u32, height: u32, rgba: &[u8]) -> (r: Id)
    ensures
        r == image_hash(width, height, rgba@),
{
    let w = u32_to_le_bytes(width);
    let h = u32_to_le_bytes(height);
    let mut buf: Vec<u8> = Vec::new();
    buf.extend_from_slice(w.as_slice());
    buf.extend_from_slice(h.as_slice());
    buf.extend_from_slice(rgba);
    assert(buf@ =~= spec_u32_to_le_bytes(width) + spec_u32_to_le_bytes(height) + rgba@);
    blake3_hash(buf.as_slice())
}

/// The size and RGBA pixels of a PNG; nothing where it does not decode.
pub fn decode_png_to_rgba(png: &[u8]) -> (r: Option<(u32, u32, Vec<u8>)>)
    ensures
        match r {
            Some((w, h, rgba)) => png_pixels(png@) == Some((w, h, rgba@)),
            None => png_pixels(png@) is None,
        },
{
    png_decode(png)
}

/// The PNG of some RGBA pixels; nothing where they are not four bytes for every
/// pixel, or do not encode. It has the hash of the pixels, so that another device
/// takes it for what it is; but for one of more than [`MAX_ROUND_TRIP`] bytes of
/// pixels, which no device reads.
pub fn encode_png(width: u32, height: u32, rgba: Vec<u8>) -> (r: Option<Vec<u8>>)
    ensures
        rgba@.len() != width * height * 4 ==> r is None,
        rgba@.len() == width * height * 4 ==> match r {
            Some(png) => png_file(width, height, rgba@) == Some(png@),
            None => png_file(width, height, rgba@) is None,
        },
        r is Some && rgba@.len() <= MAX_ROUND_TRIP ==> png_pixels(r->0@) == Some(
            (width, height, rgba@),
        ) && content_hash(Kind::Image, r->0@) == Some(image_hash(width, height, rgba@)),
        r is Some && rgba@.len() > MAX_ROUND_TRIP ==> content_hash(Kind::Image, r->0@) is None,
{
    assert(width * height * 4 <= u128::MAX) by (nonlinear_arith)
        requires
            width <= u32::MAX,
            height <= u32::MAX,
    ;
    assert(width * height <= u128::MAX) by (nonlinear_arith)
        requires
            width <= u32::MAX,
            height <= u32::MAX,
    ;
    let bytes: u128 = (width as u128) * (height as u128) * 4;
    if rgba.len() as u128 != bytes {
        return None;
    }
    png_encode(width, height, rgba)
}

/// The hash that an item with this payload has; nothing where the payload is no
/// such item.
pub open spec fn content_hash(kind: Kind, payload: Seq<u8>) -> Option<Id> {
    match kind {
        Kind::Image => match png_pixels(payload) {
            Some((w, h, rgba)) => Some(image_hash(w, h, rgba)),
            None => None,
        },
        _ => if valid_utf8(payload) {
            Some(text_hash(decode_utf8(payload)))
        } else {
            Some(blake3_digest(payload))
        },
    }
}

/// A text that is sent under its hash, with the space around it or without, is an
/// item that its receiver takes for what it is.
pub proof fn copied_text_is_genuine(kind: Kind, text: Seq<char>)
    requires
        kind != Kind::Image,
    ensures
        content_hash(kind, encode_utf8(text)) == Some(text_hash(text)),
        content_hash(kind, encode_utf8(trimmed(text))) == Some(text_hash(text)),
{
    vstd::utf8::encode_utf8_valid_utf8(text);
    vstd::utf8::encode_utf8_decode_utf8(text);
    vstd::utf8::encode_utf8_valid_utf8(trimmed(text));
    vstd::utf8::encode_utf8_decode_utf8(trimmed(text));
    canonical_form_settles(text);
}

/// Decides whether `claimed` is the hash of an item with this payload.
pub fn verify_content_hash(kind: Kind, payload: &[u8], claimed: Id) -> (r: bool)
    ensures
        r == (content_hash(kind, payload@) == Some(claimed)),
{
    let computed = match kind {
        Kind::Image => match decode_png_to_rgba(payload) {
            Some((w, h, rgba)) => image_rgba_hash(w, h, rgba.as_slice()),
            None => {
                return false;
            },
        },
        _ => match utf8_text(payload) {
            Some(text) => {
                proof {
                    vstd::utf8::encode_utf8_decode_utf8(text@);
                }
                clipboard_dedup_hash(text.as_str())
            },
            None => blake3_hash(payload),
        },
    };
    same_id(&computed, &claimed)
}

/// Kibibytes, rounded up.
pub open spec fn kilobytes(len: nat) -> nat {
    (len + 1023) / 1024
}

/// The label of an item: an image shows its size, any text itself.
pub open spec fn label(kind: Kind, payload: Seq<u8>) -> Seq<char> {
    match kind {
        Kind::Image => "Image, "@ + decimal(kilobytes(payload.len())) + " KB"@,
        _ => shown_text(payload),
    }
}

/// Computes [`label`].
pub fn preview_label(kind: Kind, payload: &[u8]) -> (r: String)
    ensures
        r@ == label(kind, payload@),
        kind != Kind::Image ==> r@ == lossy_text(payload@),
{
    match kind {
        Kind::Image => {
            let mut s = "Image, ".to_owned();
            let n: u64 = kilobytes_of(payload.len());
            s.append(decimal_text(n).as_str());
            s.append(" KB");
            s
        },
        _ => text_of(payload),
    }
}

fn kilobytes_of(len: usize) -> (r: u64)
    ensures
        r == kilobytes(len as nat),
{
    let whole: u64 = (len / 1024) as u64;
    if len % 1024 == 0 {
        whole
    } else {
        whole + 1
    }
}

/// The label of an image that was copied on this device.
pub open spec fn copied_image_label(width: u32, height: u32, png_len: nat) -> Seq<char> {
    "Image "@ + decimal(width as nat) + "\u{d7}"@ + decimal(height as nat) + ", "@ + decimal(
        kilobytes(png_len),
    ) + " KB"@
}

/// Computes [`copied_image_label`].
pub fn copied_image_preview(width: u32, height: u32, png_len: usize) -> (r: String)
    ensures
        r@ == copied_image_label(width, height, png_len as nat),
{
    let mut s = "Image ".to_owned();
    s.append(decimal_text(width as u64).as_str());
    s.append("\u{d7}");
    s.append(decimal_text(height as u64).as_str());
    s.append(", ");
    s.append(decimal_text(kilobytes_of(png_len)).as_str());
    s.append(" KB");
    s
}

/// Most images that are kept.
pub const IMAGE_CACHE_CAP: usize = 4;

/// The most recent images by their hash in hexadecimal, oldest first.
pub struct ImageCache {
    pub entries: Vec<(String, Vec<u8>)>,
}

impl View for ImageCache {
    type V = Seq<(Seq<char>, Seq<u8>)>;

    open spec fn view(&self) -> Seq<(Seq<char>, Seq<u8>)> {
        Seq::new(self.entries@.len(), |i: int| (self.entries@[i].0@, self.entries@[i].1@))
    }
}

/// Some image is kept under `hash`.
pub open spec fn is_cached(cache: Seq<(Seq<char>, Seq<u8>)>, hash: Seq<char>) -> bool {
    exists|i: int| 0 <= i < cache.len() && (#[trigger] cache[i]).0 == hash
}

/// An empty store of images.
pub fn image_cache() -> (r: ImageCache)
    ensures
        r@ == Seq::<(Seq<char>, Seq<u8>)>::empty(),
{
    let r = ImageCache { entries: Vec::new() };
    assert(r@ =~= Seq::empty());
    r
}

impl ImageCache {
    /// Where the first image under `hash` is.
    fn find(&self, hash: &str) -> (r: Option<usize>)
        ensures
            match r {
                Some(i) => {
                    &&& i < self@.len()
                    &&& self@[i as int].0 == hash@
                    &&& forall|j: int| 0 <= j < i ==> (#[trigger] self@[j]).0 != hash@
                },
                None => !is_cached(self@, hash@),
            },
    {
        let mut i: usize = 0;
        while i < self.entries.len()
            invariant
                i <= self.entries@.len(),
                forall|j: int| 0 <= j < i ==> (#[trigger] self@[j]).0 != hash@,
            decreases self.entries@.len() - i,
        {
            if same_text(self.entries[i].0.as_str(), hash) {
                assert(self@[i as int].0 == hash@);
                return Some(i);
            }
            assert(self@[i as int].0 != hash@);
            i = i + 1;
        }
        None
    }

    /// Keeps an image unless one is kept under its hash, dropping the oldest ones
    /// beyond [`IMAGE_CACHE_CAP`].
    pub fn cache_image(&mut self, hash_hex: String, png: Vec<u8>)
        ensures
            final(self)@ == if is_cached(old(self)@, hash_hex@) {
                old(self)@
            } else {
                newest(old(self)@.push((hash_hex@, png@)))
            },
    {
        if self.find(hash_hex.as_str()).is_some() {
            return;
        }
        let ghost before = self@;
        let ghost all = before.push((hash_hex@, png@));
        self.entries.push((hash_hex, png));
        assert(self@ =~= all);
        let ghost mut dropped: int = 0;
        assert(all.skip(0) =~= all);
        while self.entries.len() > IMAGE_CACHE_CAP
            invariant
                0 <= dropped <= all.len(),
                self@ == all.skip(dropped),
                self.entries@.len() > IMAGE_CACHE_CAP || dropped == 0 || self.entries@.len()
                    == IMAGE_CACHE_CAP,
            decreases self.entries@.len(),
        {
            let ghost now = self@;
            let _ = self.entries.remove(0);
            assert(self@ =~= now.skip(1));
            assert(self@ =~= all.skip(dropped + 1));
            proof {
                dropped = dropped + 1;
            }
        }
        assert(self@ =~= newest(all));
    }

    /// The image under `hash_hex`.
    pub fn lookup_cached_image(&self, hash_hex: &str) -> (r: Option<Vec<u8>>)
        ensures
            match r {
                Some(png) => found_image(self@, hash_hex@, png@),
                None => !is_cached(self@, hash_hex@),
            },
    {
        match self.find(hash_hex) {
            Some(i) => {
                let png = copy_bytes(self.entries[i].1.as_slice());
                assert(self@[i as int] == (hash_hex@, png@));
                Some(png)
            },
            None => None,
        }
    }

    /// Drops every image under one of `hashes_hex`.
    pub fn purge_cached_images(&mut self, hashes_hex: &[String])
        ensures
            final(self)@ == without_hashes(old(self)@, views(hashes_hex@)),
    {
        let ghost before = self@;
        let ghost hashes = views(hashes_hex@);
        let mut entries: Vec<(String, Vec<u8>)> = Vec::new();
        std::mem::swap(&mut entries, &mut self.entries);
        let mut out = ImageCache { entries: Vec::new() };
        let mut i: usize = 0;
        assert(before.subrange(0, 0) =~= Seq::empty());
        assert(out@ =~= without_hashes(before.subrange(0, 0), hashes));
        while i < entries.len()
            invariant
                i <= entries@.len(),
                before == (ImageCache { entries })@,
                hashes == views(hashes_hex@),
                out@ == without_hashes(before.subrange(0, i as int), hashes),
            decreases entries@.len() - i,
        {
            proof {
                let next = before.subrange(0, i + 1);
                assert(next.drop_last() =~= before.subrange(0, i as int));
                assert(next.last() == before[i as int]);
            }
            let ghost so_far = out@;
            if !names(hashes_hex, entries[i].0.as_str()) {
                let hash = entries[i].0.clone();
                let png = copy_bytes(entries[i].1.as_slice());
                out.entries.push((hash, png));
                assert(out@ =~= so_far.push(before[i as int]));
            }
            i = i + 1;
        }
        assert(before.subrange(0, before.len() as int) =~= before);
        *self = out;
    }

    /// Drops every image.
    pub fn clear(&mut self)
        ensures
            final(self)@ == Seq::<(Seq<char>, Seq<u8>)>::empty(),
    {
        *self = image_cache();
    }
}

/// The newest [`IMAGE_CACHE_CAP`] images.
pub open spec fn newest(cache: Seq<(Seq<char>, Seq<u8>)>) -> Seq<(Seq<char>, Seq<u8>)> {
    cache.skip(
        if cache.len() > IMAGE_CACHE_CAP {
            cache.len() - IMAGE_CACHE_CAP
        } else {
            0
        },
    )
}

/// `png` is the first image kept under `hash`.
pub open spec fn found_image(
    cache: Seq<(Seq<char>, Seq<u8>)>,
    hash: Seq<char>,
    png: Seq<u8>,
) -> bool {
    exists|i: int|
        {
            &&& 0 <= i < cache.len()
            &&& #[trigger] cache[i] == (hash, png)
            &&& forall|j: int| 0 <= j < i ==> (#[trigger] cache[j]).0 != hash
        }
}

/// The images that are not under one of `hashes`.
pub open spec fn without_hashes(
    cache: Seq<(Seq<char>, Seq<u8>)>,
    hashes: Seq<Seq<char>>,
) -> Seq<(Seq<char>, Seq<u8>)>
    decreases cache.len(),
{
    if cache.len() == 0 {
        Seq::empty()
    } else {
        let rest = without_hashes(cache.drop_last(), hashes);
        if hashes.contains(cache.last().0) {
            rest
        } else {
            rest.push(cache.last())
        }
    }
}

/// Decides whether `text` is one of `list`.
pub fn names(list: &[String], text: &str) -> (r: bool)
    ensures
        r == views(list@).contains(text@),
{
    let mut i: usize = 0;
    while i < list.len()
        invariant
            i <= list@.len(),
            forall|j: int| 0 <= j < i ==> (#[trigger] list@[j])@ != text@,
        decreases list@.len() - i,
    {
        if same_text(list[i].as_str(), text) {
            assert(views(list@)[i as int] == text@);
            return true;
        }
        i = i + 1;
    }
    proof {
        let v = views(list@);
        assert forall|j: int| 0 <= j < v.len() implies v[j] != text@ by {
            assert(list@[j]@ != text@);
        }
    }
    false
}

/// No two byte strings have one digest.
pub open spec fn digests_differ() -> bool {
    forall|a: Seq<u8>, b: Seq<u8>| #[trigger] blake3_digest(a) == #[trigger] blake3_digest(b) ==> a == b
}

/// As far as digests tell byte strings apart, hashes tell contents apart: two texts
/// with one hash have one canonical form, and two images with one hash have one size
/// and the same pixels.
pub proof fn hashes_tell_contents_apart(
    s: Seq<char>,
    t: Seq<char>,
    w: u32,
    h: u32,
    rgba: Seq<u8>,
    w2: u32,
    h2: u32,
    rgba2: Seq<u8>,
)
    ensures
        digests_differ() && text_hash(s) == text_hash(t) ==> canonical(s) == canonical(t),
        digests_differ() && image_hash(w, h, rgba) == image_hash(w2, h2, rgba2) ==> w == w2 && h == h2
            && rgba == rgba2,
{
    vstd::utf8::encode_utf8_decode_utf8(canonical(s));
    vstd::utf8::encode_utf8_decode_utf8(canonical(t));
    vstd::bytes::lemma_auto_spec_u32_to_from_le_bytes();
    let a = spec_u32_to_le_bytes(w) + spec_u32_to_le_bytes(h) + rgba;
    let b = spec_u32_to_le_bytes(w2) + spec_u32_to_le_bytes(h2) + rgba2;
    if digests_differ() && image_hash(w, h, rgba) == image_hash(w2, h2, rgba2) {
        assert(a == b);
        assert(a.subrange(0, 4) =~= spec_u32_to_le_bytes(w));
        assert(b.subrange(0, 4) =~= spec_u32_to_le_bytes(w2));
        assert(a.subrange(4, 8) =~= spec_u32_to_le_bytes(h));
        assert(b.subrange(4, 8) =~= spec_u32_to_le_bytes(h2));
        assert(a.skip(8) =~= rgba);
        assert(b.skip(8) =~= rgba2);
    }
}

/// The hash of a text without CR and without space around it is the digest of its
/// encoding.
pub proof fn plain_text_hash(text: Seq<char>)
    requires
        canonical(text) == text,
    ensures
        text_hash(text) == blake3_digest(encode_utf8(text)),
{
}

/// An item's hash is settled by its content: a payload that encodes a text has the
/// hash of the text, one that decodes as an image the hash of its pixels, and one
/// that decodes as no image has none.
pub proof fn content_settles_the_hash(kind: Kind, payload: Seq<u8>, text: Seq<char>)
    ensures
        kind != Kind::Image && payload == encode_utf8(text) ==> content_hash(kind, payload) == Some(
            text_hash(text),
        ),
        kind != Kind::Image && !valid_utf8(payload) ==> content_hash(kind, payload) == Some(
            blake3_digest(payload),
        ),
        kind == Kind::Image && png_pixels(payload) is None ==> content_hash(kind, payload) is None,
        kind == Kind::Image && png_pixels(payload) is Some ==> {
            let (w, h, rgba) = png_pixels(payload)->0;
            content_hash(kind, payload) == Some(image_hash(w, h, rgba))
        },
{
    vstd::utf8::encode_utf8_valid_utf8(text);
    vstd::utf8::encode_utf8_decode_utf8(text);
}

/// An image is shown by its size in kibibytes, rounded up; a text as it is.
pub proof fn items_are_labelled(payload: Seq<u8>, kind: Kind, text: Seq<char>)
    ensures
        label(Kind::Image, payload) == "Image, "@ + decimal((payload.len() + 1023) / 1024) + " KB"@,
        kind != Kind::Image ==> label(kind, encode_utf8(text)) == text,
{
    encoded_text_is_shown(text);
}

/// Of the images the last four that were kept are still there, in their order.
pub proof fn last_images_are_kept(cache: Seq<(Seq<char>, Seq<u8>)>, k: int)
    ensures
        newest(cache).len() == if cache.len() > 4 {
            4
        } else {
            cache.len() as int
        },
        0 <= k < newest(cache).len() ==> newest(cache)[newest(cache).len() - 1 - k]
            == cache[cache.len() - 1 - k],
{
}

/// Clearing takes exactly the images under the hashes that it names.
pub proof fn clearing_takes_the_named_images(
    cache: Seq<(Seq<char>, Seq<u8>)>,
    hashes: Seq<Seq<char>>,
    e: (Seq<char>, Seq<u8>),
)
    ensures
        without_hashes(cache, hashes).contains(e) == (cache.contains(e) && !hashes.contains(e.0)),
    decreases cache.len(),
{
    if cache.len() > 0 {
        let rest = cache.drop_last();
        let before = without_hashes(rest, hashes);
        let after = without_hashes(cache, hashes);
        clearing_takes_the_named_images(rest, hashes, e);
        if cache.contains(e) {
            let i = cache.index_of(e);
            if i < rest.len() {
                assert(rest[i] == e);
            }
        }
        if rest.contains(e) {
            assert(cache[rest.index_of(e)] == e);
        }
        assert(cache[cache.len() - 1] == cache.last());
        if before.contains(e) {
            assert(after[before.index_of(e)] == e);
        }
        if !hashes.contains(cache.last().0) {
            assert(after[before.len() as int] == cache.last());
            if after.contains(e) {
                let i = after.index_of(e);
                if i < before.len() {
                    assert(before[i] == e);
                }
            }
        }
    }
}

/// An image that was copied here is shown by its width and height in pixels and its size
/// in kibibytes, rounded up.
pub proof fn copied_images_are_labelled(width: u32, height: u32, len: nat)
    ensures
        copied_image_label(width, height, len) == "Image "@ + decimal(width as nat) + "\u{d7}"@
            + decimal(height as nat) + ", "@ + decimal((len + 1023) / 1024) + " KB"@,
{
}

} // verus!
