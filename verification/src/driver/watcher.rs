//! Watching the system's clipboard for what the user copies.
use vstd::prelude::*;
use vstd::string::*;
use vstd::utf8::encode_utf8;

use crate::codec::{png_file, png_pixels, MAX_ROUND_TRIP};
use crate::driver::content::{
    clipboard_dedup_hash, content_hash, copied_image_label, copied_image_preview, encode_png,
    image_hash, image_rgba_hash, text_hash,
};
use crate::driver::outbound::{
    all_desk, received_image_reaches_the_clipboard, received_text_reaches_the_clipboard, DeskView,
    Outlook,
};
use crate::driver::peers::{is_id, lists_id, PeerMetaView};
use crate::ids::Id;
use crate::text::{trim, trimmed};
use crate::wire::{ActionView, Kind};

verus! {

/// How often the clipboard is looked at.
pub const CLIPBOARD_INTERVAL: u64 = 200;

/// What the clipboard holds. An image counts even where a text comes with it.
#[derive(Debug)]
pub enum Clip {
    Nothing,
    Text { text: String },
    Image { width: u32, height: u32, rgba: Vec<u8> },
}

/// View of a [`Clip`].
#[verifier::ext_equal]
pub ghost enum ClipView {
    Nothing,
    Text { text: Seq<char> },
    Image { width: u32, height: u32, rgba: Seq<u8> },
}

impl View for Clip {
    type V = ClipView;

    open spec fn view(&self) -> ClipView {
        match *self {
            Clip::Nothing => ClipView::Nothing,
            Clip::Text { text } => ClipView::Text { text: text@ },
            Clip::Image { width, height, rgba } => ClipView::Image { width, height, rgba: rgba@ },
        }
    }
}

/// What is to be sent of what the clipboard holds.
#[derive(Debug)]
pub enum Copied {
    Nothing,
    Text { text: String },
    Image { hash: Id, png: Vec<u8>, preview: String },
}

/// View of a [`Copied`].
#[verifier::ext_equal]
pub ghost enum CopiedView {
    Nothing,
    Text { text: Seq<char> },
    Image { hash: Id, png: Seq<u8>, preview: Seq<char> },
}

impl View for Copied {
    type V = CopiedView;

    open spec fn view(&self) -> CopiedView {
        match *self {
            Copied::Nothing => CopiedView::Nothing,
            Copied::Text { text } => CopiedView::Text { text: text@ },
            Copied::Image { hash, png, preview } => CopiedView::Image {
                hash,
                png: png@,
                preview: preview@,
            },
        }
    }
}

/// What the watch over the clipboard remembers.
#[derive(Debug, Clone, Copy)]
pub struct Watcher {
    /// The hash of what the clipboard held last.
    pub last_seen: Option<Id>,
    /// Since when the session has been up for which the clipboard was looked at
    /// first.
    pub last_session: u64,
}

/// A watch that has seen nothing.
pub fn new_watcher() -> (r: Watcher)
    ensures
        r == (Watcher { last_seen: None, last_session: 0 }),
{
    Watcher { last_seen: None, last_session: 0 }
}

/// The hash of what the clipboard holds.
pub open spec fn clip_hash(c: ClipView) -> Option<Id> {
    match c {
        ClipView::Nothing => None,
        ClipView::Text { text } => Some(text_hash(text)),
        ClipView::Image { width, height, rgba } => Some(image_hash(width, height, rgba)),
    }
}

fn hash_of(c: &Clip) -> (r: Option<Id>)
    ensures
        r == clip_hash(c@),
{
    match c {
        Clip::Nothing => None,
        Clip::Text { text } => Some(clipboard_dedup_hash(text.as_str())),
        Clip::Image { width, height, rgba } => Some(image_rgba_hash(*width, *height, rgba.as_slice())),
    }
}

/// The watch at the start of a session: what the clipboard holds then was copied
/// before it, and is not sent.
pub open spec fn seeded(w: Watcher, established: u64, clip: ClipView) -> Watcher {
    if established == w.last_session {
        w
    } else {
        Watcher {
            last_session: established,
            last_seen: match clip_hash(clip) {
                Some(h) => Some(h),
                None => w.last_seen,
            },
        }
    }
}

/// Notes what the clipboard holds when a new session is up. `established` says
/// since when the session has been up.
pub fn seed(watch: &mut Watcher, established: u64, clip: &Clip)
    ensures
        *final(watch) == seeded(*old(watch), established, clip@),
{
    if established == watch.last_session {
        return;
    }
    watch.last_session = established;
    if let Some(h) = hash_of(clip) {
        watch.last_seen = Some(h);
    }
}

/// Nothing worth sending: an empty clipboard, or a text of mere space.
pub open spec fn vacant(c: ClipView) -> bool {
    match c {
        ClipView::Nothing => true,
        ClipView::Text { text } => trimmed(text).len() == 0,
        ClipView::Image { .. } => false,
    }
}

/// What is new to the watch and was not put on the clipboard by the daemon.
pub open spec fn user_copied(w: Watcher, written: Seq<Id>, c: ClipView) -> bool {
    &&& !vacant(c)
    &&& w.last_seen != clip_hash(c)
    &&& !written.contains(clip_hash(c)->0)
}

/// The watch after it looked at the clipboard.
pub open spec fn looked(w: Watcher, c: ClipView) -> Watcher {
    if vacant(c) {
        w
    } else {
        Watcher { last_seen: clip_hash(c), ..w }
    }
}

/// What is sent of an image whose encoding is `png`.
pub open spec fn image_copied(
    width: u32,
    height: u32,
    hash: Id,
    png: Option<Seq<u8>>,
    max_payload: usize,
) -> CopiedView {
    match png {
        Some(p) => if p.len() <= max_payload {
            CopiedView::Image { hash, png: p, preview: copied_image_label(width, height, p.len()) }
        } else {
            CopiedView::Nothing
        },
        None => CopiedView::Nothing,
    }
}

/// The encoding of an image: none where there are not four bytes for every pixel.
pub open spec fn encoding(width: u32, height: u32, rgba: Seq<u8>) -> Option<Seq<u8>> {
    if rgba.len() == width * height * 4 {
        png_file(width, height, rgba)
    } else {
        None
    }
}

/// What is sent of what the user copied, unless it is too large.
pub open spec fn sendable(c: ClipView, max_payload: usize) -> CopiedView {
    match c {
        ClipView::Nothing => CopiedView::Nothing,
        ClipView::Text { text } => if encode_utf8(trimmed(text)).len() > max_payload {
            CopiedView::Nothing
        } else {
            CopiedView::Text { text: trimmed(text) }
        },
        ClipView::Image { width, height, rgba } => image_copied(
            width,
            height,
            image_hash(width, height, rgba),
            encoding(width, height, rgba),
            max_payload,
        ),
    }
}

/// What a look at the clipboard finds to be sent.
pub open spec fn sent_of(w: Watcher, written: Seq<Id>, c: ClipView, max_payload: usize) -> CopiedView {
    if user_copied(w, written, c) {
        sendable(c, max_payload)
    } else {
        CopiedView::Nothing
    }
}

/// Goes on with an image that the user copied, once it is encoded.
pub fn send_image(width: u32, height: u32, hash: Id, png: Option<Vec<u8>>, max_payload: usize) -> (r: Copied)
    ensures
        r@ == image_copied(width, height, hash, crate::wire::opt_view(png), max_payload),
{
    match png {
        Some(p) => if p.len() <= max_payload {
            let preview = copied_image_preview(width, height, p.len());
            Copied::Image { hash, png: p, preview }
        } else {
            Copied::Nothing
        },
        None => Copied::Nothing,
    }
}

/// An image goes out under the hash that its receiver will work out.
pub open spec fn honest(c: CopiedView) -> bool {
    c matches CopiedView::Image { hash, png, .. } ==> content_hash(Kind::Image, png) == Some(hash)
}

/// Notes the hash of what the clipboard holds: says whether it is new to the watch
/// and was not put there by the daemon.
pub fn is_news(watch: &mut Watcher, written: &Vec<Id>, hash: Id) -> (r: bool)
    ensures
        *final(watch) == (Watcher { last_seen: Some(hash), ..*old(watch) }),
        r == (old(watch).last_seen != Some(hash) && !written@.contains(hash)),
{
    let seen = is_id(watch.last_seen, &hash);
    watch.last_seen = Some(hash);
    !seen && !lists_id(written, &hash)
}

/// Looks at the clipboard: says what is to be sent of it. `written` holds the
/// hashes of what the daemon put there itself.
pub fn look(watch: &mut Watcher, written: &Vec<Id>, clip: Clip, max_payload: usize) -> (r: Copied)
    ensures
        *final(watch) == looked(*old(watch), clip@),
        r@ == sent_of(*old(watch), written@, clip@, max_payload),
        r@ == if user_copied(*old(watch), written@, clip@) {
            sendable(clip@, max_payload)
        } else {
            CopiedView::Nothing
        },
        clip matches Clip::Image { rgba, .. } && rgba@.len() <= MAX_ROUND_TRIP ==> honest(r@),
{
    let ghost w = *watch;
    match clip {
        Clip::Nothing => Copied::Nothing,
        Clip::Text { text } => {
            let t = trim(text.as_str());
            if t.as_str().is_empty() {
                return Copied::Nothing;
            }
            let hash = clipboard_dedup_hash(text.as_str());
            if !is_news(watch, written, hash) {
                return Copied::Nothing;
            }
            if t.as_str().as_bytes().len() > max_payload {
                return Copied::Nothing;
            }
            Copied::Text { text: t }
        },
        Clip::Image { width, height, rgba } => {
            let hash = image_rgba_hash(width, height, rgba.as_slice());
            if !is_news(watch, written, hash) {
                return Copied::Nothing;
            }
            let png = encode_png(width, height, rgba);
            assert(crate::wire::opt_view(png) == encoding(width, height, rgba@));
            send_image(width, height, hash, png, max_payload)
        },
    }
}

/// What is on the clipboard when a session starts is not sent for it.
pub proof fn old_copies_are_not_sent(w: Watcher, established: u64, written: Seq<Id>, c: ClipView)
    requires
        established != w.last_session,
    ensures
        !user_copied(seeded(w, established, c), written, c),
{
}

/// What was looked at once is not sent again while it stays.
pub proof fn nothing_is_sent_twice(w: Watcher, written: Seq<Id>, c: ClipView)
    ensures
        !user_copied(looked(w, c), written, c),
{
}

/// What the daemon put on the clipboard itself is not sent back.
pub proof fn own_writes_are_not_sent(w: Watcher, written: Seq<Id>, c: ClipView)
    requires
        clip_hash(c) matches Some(h) && written.contains(h),
    ensures
        !user_copied(w, written, c),
{
}

/// What the user copies is sent: a text that is new to the watch, that the daemon did
/// not put there, and that is neither mere space nor too large, goes out without the
/// space around it; an image goes out under the hash of its pixels. Nothing that is
/// too large goes out.
pub proof fn users_copy_is_sent(
    w: Watcher,
    written: Seq<Id>,
    text: Seq<char>,
    width: u32,
    height: u32,
    rgba: Seq<u8>,
    png: Seq<u8>,
    max_payload: usize,
)
    ensures
        trimmed(text).len() > 0 && w.last_seen != Some(text_hash(text)) && !written.contains(
            text_hash(text),
        ) ==> sent_of(w, written, ClipView::Text { text }, max_payload) == if encode_utf8(
            trimmed(text),
        ).len() <= max_payload {
            CopiedView::Text { text: trimmed(text) }
        } else {
            CopiedView::Nothing
        },
        ({
            let hash = image_hash(width, height, rgba);
            let r = sent_of(w, written, ClipView::Image { width, height, rgba }, max_payload);
            w.last_seen != Some(hash) && !written.contains(hash) && rgba.len() == width * height * 4
                && png_file(width, height, rgba) == Some(png) ==> if png.len() <= max_payload {
                r matches CopiedView::Image { hash: h, png: p, preview } && h == hash && p == png
                    && preview == copied_image_label(width, height, png.len())
            } else {
                r is Nothing
            }
        }),
        trimmed(text).len() == 0 ==> sent_of(w, written, ClipView::Text { text }, max_payload)
            is Nothing,
        sent_of(w, written, ClipView::Nothing, max_payload) is Nothing,
{
}

/// A look remembers what the clipboard holds, so that only something else counts as
/// copied next; an empty clipboard and mere space change nothing. A new session
/// starts from what the clipboard holds then, and only a new one does.
pub proof fn watch_remembers_what_it_saw(w: Watcher, established: u64, text: Seq<char>)
    ensures
        trimmed(text).len() > 0 ==> looked(w, ClipView::Text { text }) == (Watcher {
            last_seen: Some(text_hash(text)),
            last_session: w.last_session,
        }),
        trimmed(text).len() == 0 ==> looked(w, ClipView::Text { text }) == w,
        looked(w, ClipView::Nothing) == w,
        established != w.last_session ==> seeded(w, established, ClipView::Text { text }) == (Watcher {
            last_seen: Some(text_hash(text)),
            last_session: established,
        }),
        seeded(w, w.last_session, ClipView::Text { text }) == w,
{
}

/// What came from another device and was put on the clipboard is not sent back when
/// the clipboard is looked at, neither as it was put there nor with other line ends or
/// space around it.
pub proof fn received_items_are_not_sent_back(
    w: Watcher,
    d: DeskView,
    c: Outlook,
    meta: Map<Id, PeerMetaView>,
    kind: Kind,
    text: Seq<char>,
    sensitive: bool,
    read: Seq<char>,
    payload: Seq<u8>,
    max_payload: usize,
)
    requires
        c.os_clipboard,
        kind != Kind::Image,
        text_hash(read) == text_hash(text),
    ensures
        sent_of(
            w,
            all_desk(
                d,
                c,
                seq![ActionView::WriteClipboard { kind, payload: encode_utf8(text), sensitive }],
            ).written,
            ClipView::Text { text: read },
            max_payload,
        ) is Nothing,
        png_pixels(payload) matches Some((width, height, rgba)) ==> sent_of(
            w,
            all_desk(
                d,
                c,
                seq![ActionView::WriteClipboard { kind: Kind::Image, payload, sensitive }],
            ).written,
            ClipView::Image { width, height, rgba },
            max_payload,
        ) is Nothing,
{
    received_text_reaches_the_clipboard(d, c, meta, kind, text, sensitive);
    let after = all_desk(
        d,
        c,
        seq![ActionView::WriteClipboard { kind, payload: encode_utf8(text), sensitive }],
    ).written;
    assert(after[after.len() - 1] == text_hash(text));
    if let Some((width, height, rgba)) = png_pixels(payload) {
        received_image_reaches_the_clipboard(
            d,
            c,
            meta,
            payload,
            sensitive,
            width,
            height,
            rgba,
        );
        let shown = all_desk(
            d,
            c,
            seq![ActionView::WriteClipboard { kind: Kind::Image, payload, sensitive }],
        ).written;
        assert(shown[shown.len() - 1] == image_hash(width, height, rgba));
    }
}

} // verus!
