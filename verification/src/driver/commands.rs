//! The commands that clients give.
use vstd::prelude::*;
use vstd::string::*;
use vstd::utf8::encode_utf8;

use crate::clock::{elapsed, LAST_INSTANT};
use crate::cmd::{
    answer, CmdData, CmdDataView, CmdOp, CmdResponse, HistoryItem, HistoryView, PeerEntry,
    PeerEntryView, PendingEntryView, PendingPairEntry, TrustedEntry, TrustedEntryView,
};
use crate::codec::{
    base32_decode, base32_decoded, base32_encode, base32_encoded, base64_decode, base64_decoded,
    base64_encode, base64_encoded, hex_encode_bytes, hex_text, png_pixels,
};
use crate::driver::content::{
    clipboard_dedup_hash, decode_png_to_rgba, found_image, image_hash, image_rgba_hash, is_cached,
    label, preview_label, text_hash, without_hashes, ImageCache,
};
use crate::driver::discovered::{find_by_pin, shows_pin};
use crate::driver::effects::{Effect, EffectView};
use crate::driver::inbound::{hex_of, text_in, wanted_hash, Link};
use crate::driver::node::{Node, NodeView, PinAd, PinView};
use crate::driver::outbound::{gate_outbound, let_through, Desk, DeskView};
use crate::driver::pairing::{
    confirm_node, confirm_outcome, confirm_pair, done, ensure_online, finish, going_online, refuse,
    refused, revocation, revoke_peer, storing_node, storing_outcome, unpair_all, verdict_view,
    all_distrusted, distrusted, AfterSaveView, Outcome, OutcomeView, PairRequest, PairRequestView,
    PairWay, Setting, SettingView, Step, StepView,
};
use crate::driver::peers::{build_peers, copy_texts, info_of};
use crate::driver::resync::{
    all_stamped, clearing_is_remembered, decode_hex32, id_from_bytes, id_of_bytes, id_of_text,
    mark_cleared, oldest_evicted, stamped_since, IdError, NotOlder, OutboxView,
    MAX_CLEARED_TOMBSTONE,
};
use crate::handshake::{
    live_pairs, PendingPair, PendingView, TrustedPeer, TrustedView, Unexpired, PAIRING_WINDOW,
};
use crate::idmap::{kept, IdMap};
use crate::ids::Id;
use crate::text::{chars_of, decimal, decimal_text, trim, trimmed};
use crate::uri::{build_pair_uri, pair_uri, pair_uri_error_text, parse_pair_uri, parsed_uri};
use crate::wire::{opt_view, views, Action, ActionView, Event, EventView, Kind, MsgView};

verus! {

/// Most bytes of an image that can be handed out: its text has to fit in memory.
pub const MAX_IMAGE_BYTES: usize = 0x2000_0000;

/// The link's side of the state, as the state machine has it.
#[derive(Debug)]
pub struct PeerState {
    pub name: String,
    pub link_latency_ms: u32,
    pub battery: u8,
    pub charging: bool,
    pub inactive: bool,
}

/// What is shown of this device for others to pair with it.
#[derive(Debug)]
pub struct OwnIdentity {
    pub peer_id: Id,
    pub static_pub: Id,
    /// The words of the key's fingerprint.
    pub words: Vec<String>,
}

/// What the daemon knows when a command comes in.
pub struct CmdContext {
    pub now: u64,
    /// Milliseconds since 1970, if the clock shows a time after that.
    pub epoch_ms: Option<u64>,
    /// Something is stored between runs.
    pub persists: bool,
    /// The synchronisation is switched on.
    pub on: bool,
    pub primary: Option<Id>,
    /// The peers with a session.
    pub linked: Vec<Id>,
    /// The history, newest first.
    pub history: Vec<HistoryItem>,
    pub battery_level: u8,
    pub charging: bool,
    pub peer: PeerState,
    /// The primary's address, as it is written.
    pub peer_addr: Option<String>,
    /// The addresses of the pairs that wait, as they are written.
    pub addr_texts: IdMap<String>,
    pub own: OwnIdentity,
    pub lan_addr: String,
    pub tailnet_addr: Option<String>,
    /// A code of six digits, drawn for this command.
    pub fresh_pin: String,
    /// Most bytes of an item.
    pub max_payload: usize,
    /// How long items are kept to be sent again.
    pub outbox_max_age: u64,
}

/// No image is too large to be handed out.
pub open spec fn images_fit(images: Seq<(Seq<char>, Seq<u8>)>) -> bool {
    forall|i: int| 0 <= i < images.len() ==> (#[trigger] images[i]).1.len() <= MAX_IMAGE_BYTES
}

/// Decides [`images_fit`].
pub fn images_are_small(images: &ImageCache) -> (r: bool)
    ensures
        r == images_fit(images@),
{
    let mut i: usize = 0;
    while i < images.entries.len()
        invariant
            i <= images.entries@.len(),
            forall|j: int| 0 <= j < i ==> (#[trigger] images@[j]).1.len() <= MAX_IMAGE_BYTES,
        decreases images.entries@.len() - i,
    {
        if images.entries[i].1.len() > MAX_IMAGE_BYTES {
            assert(images@[i as int].1.len() > MAX_IMAGE_BYTES);
            return false;
        }
        assert(images@[i as int].1.len() <= MAX_IMAGE_BYTES);
        i = i + 1;
    }
    assert(images@.len() == images.entries@.len());
    true
}

/// Why a text cannot be sent.
pub open spec fn text_too_large(len: nat, max: nat) -> Seq<char> {
    "clipboard text too large: "@ + decimal(len) + " bytes (max "@ + decimal(max) + " bytes)"@
}

/// What comes of a text to be sent: space around it does not count.
pub open spec fn push_outcome(max_payload: usize, id: u64, text: Seq<char>) -> OutcomeView {
    let t = trimmed(text);
    if encode_utf8(t).len() > max_payload {
        refused(id, text_too_large(encode_utf8(t).len(), max_payload as nat))
    } else if t.len() == 0 {
        done(Seq::empty(), answer(id, None))
    } else {
        done(seq![EffectView::CopiedText { hash: text_hash(t), text: t }], answer(id, None))
    }
}

/// Sends a text as if it had been copied.
pub fn push_text(max_payload: usize, id: u64, text: &str) -> (r: Outcome)
    ensures
        r@ == push_outcome(max_payload, id, text@),
{
    let t = trim(text);
    let len: usize = t.as_str().as_bytes().len();
    if len > max_payload {
        let mut msg = "clipboard text too large: ".to_owned();
        msg.append(decimal_text(len as u64).as_str());
        msg.append(" bytes (max ");
        msg.append(decimal_text(max_payload as u64).as_str());
        msg.append(" bytes)");
        return refuse(id, msg);
    }
    let mut effects: Vec<Effect> = Vec::new();
    if t.as_str().is_empty() {
        assert(views(effects@) =~= Seq::empty());
        return finish(id, effects);
    }
    let hash = clipboard_dedup_hash(t.as_str());
    effects.push(Effect::CopiedText { hash, text: t });
    assert(views(effects@) =~= seq![EffectView::CopiedText { hash, text: t@ }]);
    finish(id, effects)
}

/// Why an image cannot be sent.
pub open spec fn image_too_large(len: nat, max: nat) -> Seq<char> {
    "push_image: image too large ("@ + decimal(len) + " bytes > "@ + decimal(max) + " cap)"@
}

/// What comes of the bytes of an image to be sent, and of what is in them.
pub open spec fn image_outcome(
    max_payload: usize,
    id: u64,
    png: Seq<u8>,
    pixels: Option<(u32, u32, Seq<u8>)>,
    sensitive: bool,
) -> OutcomeView {
    if png.len() > max_payload {
        refused(id, image_too_large(png.len(), max_payload as nat))
    } else {
        match pixels {
            Some((w, h, rgba)) => done(
                seq![
                    EffectView::CopiedImage {
                        hash: image_hash(w, h, rgba),
                        png,
                        preview: label(Kind::Image, png),
                        sensitive,
                    },
                ],
                answer(id, None),
            ),
            None => refused(id, "push_image: PNG decode failed"@),
        }
    }
}

/// What comes of an image to be sent.
pub open spec fn push_image_outcome(
    max_payload: usize,
    id: u64,
    data: Seq<char>,
    sensitive: bool,
) -> OutcomeView {
    match base64_decoded(data) {
        Ok(png) => image_outcome(max_payload, id, png, png_pixels(png), sensitive),
        Err(e) => refused(id, "push_image: base64: "@ + e),
    }
}

/// Goes on with an image to be sent, once it is decoded.
pub fn push_decoded_image(
    max_payload: usize,
    id: u64,
    png: Vec<u8>,
    pixels: Option<(u32, u32, Vec<u8>)>,
    sensitive: bool,
) -> (r: Outcome)
    ensures
        r@ == image_outcome(max_payload, id, png@, pixels_view(pixels), sensitive),
{
    if png.len() > max_payload {
        let mut msg = "push_image: image too large (".to_owned();
        msg.append(decimal_text(png.len() as u64).as_str());
        msg.append(" bytes > ");
        msg.append(decimal_text(max_payload as u64).as_str());
        msg.append(" cap)");
        return refuse(id, msg);
    }
    match pixels {
        Some((w, h, rgba)) => {
            let hash = image_rgba_hash(w, h, rgba.as_slice());
            let preview = preview_label(Kind::Image, png.as_slice());
            let mut effects: Vec<Effect> = Vec::new();
            effects.push(Effect::CopiedImage { hash, png, preview, sensitive });
            assert(views(effects@) =~= seq![
                EffectView::CopiedImage { hash, png: png@, preview: preview@, sensitive },
            ]);
            finish(id, effects)
        },
        None => refuse(id, "push_image: PNG decode failed".to_owned()),
    }
}

/// Pixels by their view.
pub open spec fn pixels_view(p: Option<(u32, u32, Vec<u8>)>) -> Option<(u32, u32, Seq<u8>)> {
    match p {
        Some((w, h, rgba)) => Some((w, h, rgba@)),
        None => None,
    }
}

/// Sends an image as if it had been copied. An image over the cap is not decoded.
pub fn push_image(max_payload: usize, id: u64, data: &str, sensitive: bool) -> (r: Outcome)
    ensures
        r@ == push_image_outcome(max_payload, id, data@, sensitive),
{
    match base64_decode(data) {
        Ok(png) => {
            let pixels = if png.len() > max_payload {
                None
            } else {
                decode_png_to_rgba(png.as_slice())
            };
            push_decoded_image(max_payload, id, png, pixels, sensitive)
        },
        Err(e) => {
            let mut msg = "push_image: base64: ".to_owned();
            msg.append(e.as_str());
            refuse(id, msg)
        },
    }
}

/// Hands out an image that is kept.
pub fn fetch_item(images: &ImageCache, id: u64, hash: &str) -> (r: Outcome)
    requires
        images_fit(images@),
    ensures
        fetched(images@, id, hash@, r@),
{
    match images.lookup_cached_image(hash) {
        Some(png) => {
            assert(png@.len() <= MAX_IMAGE_BYTES) by {
                let i = choose|i: int|
                    0 <= i < images@.len() && #[trigger] images@[i] == (hash@, png@) && forall|j: int|
                        0 <= j < i ==> (#[trigger] images@[j]).0 != hash@;
                assert(images@[i].1.len() <= MAX_IMAGE_BYTES);
            }
            let bytes = base64_encode(png.as_slice());
            let ghost data = Some(CmdDataView::ItemBytes { bytes: base64_encoded(png@) });
            let r = Outcome {
                effects: Vec::new(),
                step: Step::Done(CmdResponse::ok(id, Some(CmdData::ItemBytes { bytes }))),
            };
            assert(r@ =~= done(Seq::empty(), answer(id, data)));
            assert(is_cached(images@, hash@));
            r
        },
        None => refuse(id, "fetch_item: payload not cached".to_owned()),
    }
}

/// What comes of a request for an image.
pub open spec fn fetched(images: Seq<(Seq<char>, Seq<u8>)>, id: u64, hash: Seq<char>, r: OutcomeView) -> bool {
    if is_cached(images, hash) {
        exists|png: Seq<u8>| #[trigger]
            found_image(images, hash, png) && r == done(
                Seq::empty(),
                answer(id, Some(CmdDataView::ItemBytes { bytes: base64_encoded(png) })),
            )
    } else {
        r == refused(id, "fetch_item: payload not cached"@)
    }
}

/// The items of a history that a clearing takes.
pub open spec fn cleared_texts(history: Seq<HistoryView>, include_favorites: bool) -> Seq<Seq<char>>
    decreases history.len(),
{
    if history.len() == 0 {
        Seq::empty()
    } else {
        let rest = cleared_texts(history.drop_last(), include_favorites);
        if include_favorites || !history.last().favorite {
            rest.push(history.last().hash)
        } else {
            rest
        }
    }
}

fn texts_to_clear(history: &Vec<HistoryItem>, include_favorites: bool) -> (r: Vec<String>)
    ensures
        views(r@) == cleared_texts(views(history@), include_favorites),
{
    let ghost all = views(history@);
    let mut r: Vec<String> = Vec::new();
    let mut i: usize = 0;
    assert(all.subrange(0, 0) =~= Seq::empty());
    assert(views(r@) =~= Seq::empty());
    while i < history.len()
        invariant
            i <= history@.len(),
            all == views(history@),
            views(r@) == cleared_texts(all.subrange(0, i as int), include_favorites),
        decreases history@.len() - i,
    {
        proof {
            let next = all.subrange(0, i + 1);
            assert(next.drop_last() =~= all.subrange(0, i as int));
            assert(next.last() == history@[i as int]@);
        }
        let ghost before = views(r@);
        if include_favorites || !history[i].favorite {
            let text = history[i].hash.clone();
            r.push(text);
            assert(views(r@) =~= before.push(text@));
        }
        i = i + 1;
    }
    assert(all.subrange(0, all.len() as int) =~= all);
    r
}

/// The ids among some texts.
pub open spec fn readable_ids(texts: Seq<Seq<char>>) -> Seq<Id>
    decreases texts.len(),
{
    if texts.len() == 0 {
        Seq::empty()
    } else {
        let rest = readable_ids(texts.drop_last());
        match id_of_text(texts.last()) {
            Ok(id) => rest.push(id),
            Err(_) => rest,
        }
    }
}

fn ids_of_texts(texts: &Vec<String>) -> (r: Vec<Id>)
    ensures
        r@ == readable_ids(views(texts@)),
{
    let ghost all = views(texts@);
    let mut r: Vec<Id> = Vec::new();
    let mut i: usize = 0;
    assert(all.subrange(0, 0) =~= Seq::empty());
    while i < texts.len()
        invariant
            i <= texts@.len(),
            all == views(texts@),
            r@ == readable_ids(all.subrange(0, i as int)),
        decreases texts@.len() - i,
    {
        proof {
            let next = all.subrange(0, i + 1);
            assert(next.drop_last() =~= all.subrange(0, i as int));
            assert(next.last() == texts@[i as int]@);
        }
        if let Ok(id) = decode_hex32(texts[i].as_str()) {
            r.push(id);
        }
        i = i + 1;
    }
    assert(all.subrange(0, all.len() as int) =~= all);
    r
}

/// The tombstones after `hashes` were cleared at `now`.
pub open spec fn tombstones(
    before: Map<Id, u64>,
    hashes: Seq<Id>,
    max_age: u64,
    now: u64,
    after: Map<Id, u64>,
) -> bool {
    if hashes.len() == 0 {
        after == before
    } else {
        oldest_evicted(
            all_stamped(kept::<u64, NotOlder>(before, (NotOlder { max_age, now })), hashes, now),
            MAX_CLEARED_TOMBSTONE as nat,
            after,
        )
    }
}

/// What clearing the history does: what leaves it is kept for nobody, is
/// remembered as cleared, and its images go.
pub open spec fn clear_step(
    n: NodeView,
    d: DeskView,
    c: CmdContext,
    id: u64,
    include_favorites: bool,
    after: NodeView,
    after_d: DeskView,
    r: OutcomeView,
) -> bool {
    let texts = cleared_texts(views(c.history@), include_favorites);
    let ids = readable_ids(texts);
    &&& tombstones(n.cleared, ids, c.outbox_max_age, c.now, after.cleared)
    &&& after == (NodeView { cleared: after.cleared, ..n })
    &&& after_d == (DeskView { images: without_hashes(d.images, texts), ..d })
    &&& r == done(
        seq![
            EffectView::RemoveFromOutbox { hashes: ids },
            EffectView::Handle(EventView::ClearHistory { include_favorites }),
        ],
        answer(id, None),
    )
}

fn clear_history(node: &mut Node, desk: &mut Desk, ctx: &CmdContext, id: u64, include_favorites: bool) -> (r:
    Outcome)
    ensures
        clear_step(
            old(node)@,
            old(desk)@,
            *ctx,
            id,
            include_favorites,
            final(node)@,
            final(desk)@,
            r@,
        ),
{
    let ghost n = node@;
    let ghost d = desk@;
    let texts = texts_to_clear(&ctx.history, include_favorites);
    let ids = ids_of_texts(&texts);
    mark_cleared(&mut node.cleared, &ids, ctx.outbox_max_age, ctx.now);
    desk.images.purge_cached_images(texts.as_slice());
    let mut effects: Vec<Effect> = Vec::new();
    effects.push(Effect::RemoveFromOutbox { hashes: ids });
    effects.push(Effect::Handle(Event::ClearHistory { include_favorites }));
    assert(views(effects@) =~= seq![
        EffectView::RemoveFromOutbox { hashes: ids@ },
        EffectView::Handle(EventView::ClearHistory { include_favorites }),
    ]);
    assert(node@ =~= (NodeView { cleared: node@.cleared, ..n }));
    assert(desk@ =~= (DeskView { images: desk@.images, ..d }));
    finish(id, effects)
}

/// A trusted peer as clients see it.
pub open spec fn trusted_entry(trusted: Map<Id, TrustedView>, peer: Id) -> TrustedEntryView {
    TrustedEntryView {
        peer_id_hex: hex_text(peer@),
        static_pub_hex: hex_text(trusted[peer].static_pub@),
        name: trusted[peer].name,
    }
}

/// The trusted peers `order` as clients see them.
pub open spec fn trusted_entries(trusted: Map<Id, TrustedView>, order: Seq<Id>) -> Seq<TrustedEntryView> {
    Seq::new(order.len(), |i: int| trusted_entry(trusted, order[i]))
}

/// Each entry of `m` once, in some order.
pub open spec fn walks<V>(m: Map<Id, V>, order: Seq<Id>) -> bool {
    order.no_duplicates() && order.to_set() == m.dom()
}

/// The trust store, in no particular order.
pub fn trust_list(trusted: &IdMap<TrustedPeer>) -> (r: Vec<TrustedEntry>)
    ensures
        exists|order: Seq<Id>| #[trigger]
            walks(trusted@, order) && views(r@) == trusted_entries(trusted@, order),
{
    let keys = trusted.keys();
    let mut r: Vec<TrustedEntry> = Vec::new();
    let mut i: usize = 0;
    while i < keys.len()
        invariant
            i <= keys@.len(),
            forall|k: Id| #[trigger] keys@.contains(k) <==> trusted@.contains_key(k),
            r@.len() == i,
            forall|j: int| 0 <= j < i ==> (#[trigger] r@[j])@ == trusted_entry(trusted@, keys@[j]),
        decreases keys@.len() - i,
    {
        let peer = keys[i];
        assert(keys@.contains(peer));
        if let Some(p) = trusted.get(&peer) {
            let entry = TrustedEntry {
                peer_id_hex: hex_encode_bytes(peer.as_slice()),
                static_pub_hex: hex_encode_bytes(p.static_pub.as_slice()),
                name: p.name.clone(),
            };
            assert(entry@ =~= trusted_entry(trusted@, peer));
            r.push(entry);
        }
        i = i + 1;
    }
    assert(views(r@) =~= trusted_entries(trusted@, keys@));
    assert(walks(trusted@, keys@));
    r
}

/// A pair that waits as clients see it.
pub open spec fn pending_entry(
    pending: Map<Id, PendingView>,
    addr_texts: Map<Id, Seq<char>>,
    now: u64,
    peer: Id,
) -> PendingEntryView {
    PendingEntryView {
        peer_id: hex_text(peer@),
        name: pending[peer].name,
        sas_words: pending[peer].sas_words,
        addr: if addr_texts.contains_key(peer) {
            Some(addr_texts[peer])
        } else {
            None
        },
        expires_in_ms: Some((pending[peer].expires_at - now) as u64),
    }
}

/// The pairs `order` as clients see them.
pub open spec fn pending_entries(
    pending: Map<Id, PendingView>,
    addr_texts: Map<Id, Seq<char>>,
    now: u64,
    order: Seq<Id>,
) -> Seq<PendingEntryView> {
    Seq::new(order.len(), |i: int| pending_entry(pending, addr_texts, now, order[i]))
}

fn words_of(words: &[String; 6]) -> (r: Vec<String>)
    ensures
        views(r@) == views(words@),
{
    let mut r: Vec<String> = Vec::new();
    let mut i: usize = 0;
    while i < 6
        invariant
            i <= 6,
            r@.len() == i,
            forall|j: int| 0 <= j < i ==> (#[trigger] r@[j])@ == words@[j]@,
        decreases 6 - i,
    {
        r.push(words[i].clone());
        i = i + 1;
    }
    assert(views(r@) =~= views(words@));
    r
}

/// Forgets the pairs that waited too long, and lists the rest in no particular
/// order.
pub fn pair_pending(pending: &mut IdMap<PendingPair>, addr_texts: &IdMap<String>, now: u64) -> (r: Vec<
    PendingPairEntry,
>)
    ensures
        final(pending)@ == live_pairs(old(pending)@, now),
        exists|order: Seq<Id>| #[trigger]
            walks(final(pending)@, order) && views(r@) == pending_entries(
                final(pending)@,
                addr_texts@,
                now,
                order,
            ),
{
    pending.retain(&Unexpired { now });
    let keys = pending.keys();
    let mut r: Vec<PendingPairEntry> = Vec::new();
    let mut i: usize = 0;
    while i < keys.len()
        invariant
            i <= keys@.len(),
            forall|k: Id| #[trigger] keys@.contains(k) <==> pending@.contains_key(k),
            forall|k: Id| #[trigger] pending@.contains_key(k) ==> pending@[k].expires_at > now,
            r@.len() == i,
            forall|j: int|
                0 <= j < i ==> (#[trigger] r@[j])@ == pending_entry(pending@, addr_texts@, now, keys@[j]),
        decreases keys@.len() - i,
    {
        let peer = keys[i];
        assert(keys@.contains(peer));
        if let Some(p) = pending.get(&peer) {
            let addr = match addr_texts.get(&peer) {
                Some(t) => Some(t.clone()),
                None => None,
            };
            let entry = PendingPairEntry {
                peer_id: hex_encode_bytes(peer.as_slice()),
                name: p.name.clone(),
                sas_words: words_of(&p.sas_words),
                addr,
                expires_in_ms: Some(p.expires_at - now),
            };
            assert(entry@ =~= pending_entry(pending@, addr_texts@, now, peer));
            r.push(entry);
        }
        i = i + 1;
    }
    assert(views(r@) =~= pending_entries(pending@, addr_texts@, now, keys@));
    assert(walks(pending@, keys@));
    r
}

/// The linked peer as clients see it; nothing without a name.
pub open spec fn peer_entry_of(s: PeerState, addr: Option<Seq<char>>) -> Option<PeerEntryView> {
    if s.name@.len() == 0 {
        None
    } else {
        Some(
            PeerEntryView {
                peer_id: "paired"@,
                name: s.name@,
                addr: match addr {
                    Some(a) => a,
                    None => Seq::empty(),
                },
                link_latency_ms: s.link_latency_ms,
                battery: s.battery,
                charging: s.charging,
                linked: !s.inactive,
            },
        )
    }
}

/// Computes [`peer_entry_of`].
pub fn peer_entry(state: &PeerState, addr: &Option<String>) -> (r: Option<PeerEntry>)
    ensures
        opt_view(r) == peer_entry_of(*state, opt_view(*addr)),
{
    if state.name.as_str().is_empty() {
        return None;
    }
    let text = match addr {
        Some(a) => a.clone(),
        None => String::new(),
    };
    let r = Some(
        PeerEntry {
            peer_id: "paired".to_owned(),
            name: state.name.clone(),
            addr: text,
            link_latency_ms: state.link_latency_ms,
            battery: state.battery,
            charging: state.charging,
            linked: !state.inactive,
        },
    );
    assert(opt_view(r)->0 =~= peer_entry_of(*state, opt_view(*addr))->0);
    r
}

/// The addresses that the pairing URI names.
pub open spec fn uri_addrs(lan: Seq<char>, tailnet: Option<Seq<char>>) -> Seq<char> {
    match tailnet {
        Some(t) => lan + ","@ + t,
        None => lan,
    }
}

/// The memory after this device was shown for others to pair with it.
pub open spec fn shown_node(n: NodeView, now: u64, pin: Seq<char>) -> NodeView {
    let until = (now + PAIRING_WINDOW) as u64;
    NodeView { window: Some(until), pin: Some(PinView { pin, expires_at: until }), ..n }
}

/// What comes of showing this device: strangers may pair for a while, a code is
/// shown on the network, and one watch over it runs.
pub open spec fn shown_outcome(n: NodeView, c: CmdContext, id: u64) -> OutcomeView {
    let watch = if n.pin is Some {
        Seq::empty()
    } else {
        seq![EffectView::WatchPin]
    };
    let key = base32_encoded(c.own.static_pub@);
    let words = views(c.own.words@);
    done(
        seq![EffectView::PublishPin { pin: Some(c.fresh_pin@) }] + watch + going_online(c.on),
        answer(
            id,
            Some(
                CmdDataView::PairInfo {
                    peer_id_hex: hex_text(c.own.peer_id@),
                    pubkey_b32: key,
                    fingerprint_words: words,
                    addr_hint: c.lan_addr@,
                    uri: pair_uri(key, uri_addrs(c.lan_addr@, opt_view(c.tailnet_addr)), words),
                    pin: Some(c.fresh_pin@),
                    pin_expires_at_ms: match c.epoch_ms {
                        Some(t) => Some((t + PAIRING_WINDOW) as u64),
                        None => None,
                    },
                    tailnet_addr_hint: opt_view(c.tailnet_addr),
                },
            ),
        ),
    )
}

fn clone_text(t: &Option<String>) -> (r: Option<String>)
    ensures
        opt_view(r) == opt_view(*t),
{
    match t {
        Some(s) => Some(s.clone()),
        None => None,
    }
}

/// Shows this device for others to pair with it.
pub fn pair_show(node: &mut Node, ctx: &CmdContext, id: u64) -> (r: Outcome)
    requires
        ctx.now <= LAST_INSTANT,
        ctx.epoch_ms is Some ==> ctx.epoch_ms->0 <= LAST_INSTANT,
    ensures
        final(node)@ == shown_node(old(node)@, ctx.now, ctx.fresh_pin@),
        r@ == shown_outcome(old(node)@, *ctx, id),
{
    let ghost n = node@;
    let key = base32_encode(ctx.own.static_pub.as_slice());
    let mut addrs = ctx.lan_addr.clone();
    if let Some(t) = &ctx.tailnet_addr {
        addrs.append(",");
        addrs.append(t.as_str());
    }
    assert(addrs@ =~= uri_addrs(ctx.lan_addr@, opt_view(ctx.tailnet_addr)));
    let uri = build_pair_uri(key.as_str(), addrs.as_str(), &ctx.own.words);
    let until: u64 = ctx.now + PAIRING_WINDOW;
    node.window = Some(until);
    let was_shown = node.pin.is_some();
    node.pin = Some(PinAd { pin: ctx.fresh_pin.clone(), expires_at: until });
    assert(node@ =~= shown_node(n, ctx.now, ctx.fresh_pin@));
    let mut effects: Vec<Effect> = Vec::new();
    effects.push(Effect::PublishPin { pin: Some(ctx.fresh_pin.clone()) });
    if !was_shown {
        effects.push(Effect::WatchPin);
    }
    let mut online = ensure_online(ctx.on);
    let ghost first = views(effects@);
    let ghost second = views(online@);
    effects.append(&mut online);
    assert(views(effects@) =~= first + second);
    let data = CmdData::PairInfo {
        peer_id_hex: hex_encode_bytes(ctx.own.peer_id.as_slice()),
        pubkey_b32: key,
        fingerprint_words: copy_texts(&ctx.own.words),
        addr_hint: ctx.lan_addr.clone(),
        uri,
        pin: Some(ctx.fresh_pin.clone()),
        pin_expires_at_ms: match ctx.epoch_ms {
            Some(t) => Some(t + PAIRING_WINDOW),
            None => None,
        },
        tailnet_addr_hint: clone_text(&ctx.tailnet_addr),
    };
    let r = Outcome { effects, step: Step::Done(CmdResponse::ok(id, Some(data))) };
    assert(r@.effects =~= shown_outcome(n, *ctx, id).effects);
    assert(data@ =~= ((shown_outcome(n, *ctx, id).step->Done_0).data)->0);
    r
}

/// The step in which the key of a pairing is looked at.
pub open spec fn key_check(key: Id, name: Seq<char>, way: PairWay, hints: Seq<Seq<char>>) -> OutcomeView {
    OutcomeView {
        effects: Seq::empty(),
        step: StepView::CheckKey(PairRequestView { key, name, way, hints }),
    }
}

fn check_key(key: Id, name: String, way: PairWay, hints: Vec<String>) -> (r: Outcome)
    ensures
        r@ == key_check(key, name@, way, views(hints@)),
{
    let r = Outcome {
        effects: Vec::new(),
        step: Step::CheckKey(PairRequest { key, name, way, hints }),
    };
    assert(r@ =~= key_check(key, name@, way, views(hints@)));
    r
}

/// What comes of the bytes of a key that is named by its text: nothing decoded
/// and a wrong length refuse the pairing.
pub open spec fn key_outcome(
    id: u64,
    bytes: Option<Seq<u8>>,
    name: Seq<char>,
    way: PairWay,
    hints: Seq<Seq<char>>,
) -> OutcomeView {
    match bytes {
        None => refused(
            id,
            if way == PairWay::Uri {
                "bad base32 pubkey in uri"@
            } else {
                "bad base32 pubkey"@
            },
        ),
        Some(b) => if b.len() == 32 {
            key_check(id_of_bytes(b), name, way, hints)
        } else {
            refused(id, "expected 32-byte pubkey"@)
        },
    }
}

/// Goes on with a pairing once the text of its key is decoded.
pub fn pair_decoded_key(id: u64, bytes: Option<Vec<u8>>, name: String, way: PairWay, hints: Vec<String>) -> (r:
    Outcome)
    ensures
        r@ == key_outcome(id, opt_view(bytes), name@, way, views(hints@)),
{
    match bytes {
        None => if let PairWay::Uri = way {
            refuse(id, "bad base32 pubkey in uri".to_owned())
        } else {
            refuse(id, "bad base32 pubkey".to_owned())
        },
        Some(b) => match id_from_bytes(&b) {
            Some(key) => {
                proof {
                    crate::driver::resync::id_has_its_bytes(key);
                }
                check_key(key, name, way, hints)
            },
            None => refuse(id, "expected 32-byte pubkey".to_owned()),
        },
    }
}

/// What comes of a pairing by URI.
pub open spec fn pair_uri_outcome(id: u64, uri: Seq<char>, name: Seq<char>) -> OutcomeView {
    match parsed_uri(uri) {
        Err(e) => refused(id, "bad pair uri: "@ + crate::uri::uri_error_text(e)),
        Ok(p) => key_outcome(id, base32_decoded(p.pubkey_b32), name, PairWay::Uri, p.addr_hints),
    }
}

/// Pairs with the peer that a URI names.
pub fn pair_from_uri(id: u64, uri: &str, name: String) -> (r: Outcome)
    ensures
        r@ == pair_uri_outcome(id, uri@, name@),
{
    match parse_pair_uri(uri) {
        Err(e) => {
            let mut msg = "bad pair uri: ".to_owned();
            msg.append(pair_uri_error_text(e));
            refuse(id, msg)
        },
        Ok(p) => {
            let bytes = base32_decode(p.pubkey_b32.as_str());
            pair_decoded_key(id, bytes, name, PairWay::Uri, p.addr_hints)
        },
    }
}

/// What comes of a pairing by key.
pub open spec fn pair_key_outcome(id: u64, key: Seq<char>, name: Seq<char>, addr: Option<Seq<char>>) -> OutcomeView {
    key_outcome(
        id,
        base32_decoded(key),
        name,
        PairWay::Key,
        match addr {
            Some(a) => seq![a],
            None => Seq::empty(),
        },
    )
}

/// Pairs with the peer that has a key.
pub fn pair_accept(id: u64, pubkey_b32: &str, name: String, addr: Option<String>) -> (r: Outcome)
    ensures
        r@ == pair_key_outcome(id, pubkey_b32@, name@, opt_view(addr)),
{
    let ghost given = opt_view(addr);
    let bytes = base32_decode(pubkey_b32);
    let mut hints: Vec<String> = Vec::new();
    if let Some(a) = addr {
        hints.push(a);
    }
    assert(views(hints@) =~= match given {
        Some(a) => seq![a],
        None => Seq::empty(),
    });
    pair_decoded_key(id, bytes, name, PairWay::Key, hints)
}

/// Six digits.
pub open spec fn is_pin(pin: Seq<char>) -> bool {
    pin.len() == 6 && forall|i: int| 0 <= i < pin.len() ==> '0' <= #[trigger] pin[i] <= '9'
}

/// Decides [`is_pin`].
pub fn is_pair_pin(pin: &str) -> (r: bool)
    ensures
        r == is_pin(pin@),
{
    let cs = chars_of(pin);
    if cs.len() != 6 {
        return false;
    }
    let mut i: usize = 0;
    while i < cs.len()
        invariant
            i <= cs@.len(),
            cs@ == pin@,
            forall|j: int| 0 <= j < i ==> '0' <= #[trigger] pin@[j] <= '9',
        decreases cs@.len() - i,
    {
        if cs[i] < '0' || cs[i] > '9' {
            return false;
        }
        i = i + 1;
    }
    true
}

/// What comes of a pairing by code: some peer that shows it is paired with.
pub open spec fn pair_pin_step(n: NodeView, now: u64, id: u64, pin: Seq<char>, name: Seq<char>, r: OutcomeView) -> bool {
    if !is_pin(pin) {
        r == refused(id, "bad pin format (6 digits)"@)
    } else if exists|peer: Id| #[trigger] shows_pin(n.discovered, peer, pin, now) {
        exists|peer: Id| #[trigger]
            shows_pin(n.discovered, peer, pin, now) && r == key_check(
                n.discovered[peer].static_pub,
                name,
                PairWay::Pin(n.discovered[peer].addr),
                Seq::empty(),
            )
    } else {
        r == refused(id, "no_peer_with_pin"@)
    }
}

/// Pairs with a peer that shows a code.
pub fn pair_from_pin(node: &Node, now: u64, id: u64, pin: &str, name: String) -> (r: Outcome)
    ensures
        pair_pin_step(node@, now, id, pin@, name@, r@),
{
    if !is_pair_pin(pin) {
        return refuse(id, "bad pin format (6 digits)".to_owned());
    }
    match find_by_pin(&node.discovered, pin, now) {
        None => refuse(id, "no_peer_with_pin".to_owned()),
        Some((key, addr)) => {
            let hints: Vec<String> = Vec::new();
            assert(views(hints@) =~= Seq::empty());
            check_key(key, name, PairWay::Pin(addr), hints)
        },
    }
}

/// Why a text names no peer.
pub open spec fn bad_peer_id(e: IdError) -> Seq<char> {
    match e {
        IdError::BadHex => "bad hex peer_id"@,
        IdError::WrongLength => "expected 32-byte peer_id"@,
    }
}

fn refuse_peer_id(id: u64, e: IdError) -> (r: Outcome)
    ensures
        r@ == refused(id, bad_peer_id(e)),
{
    match e {
        IdError::BadHex => refuse(id, "bad hex peer_id".to_owned()),
        IdError::WrongLength => refuse(id, "expected 32-byte peer_id".to_owned()),
    }
}

/// The outcome that a command is answered, with `data` and nothing to be done.
pub open spec fn told(id: u64, data: CmdDataView) -> OutcomeView {
    done(Seq::empty(), answer(id, Some(data)))
}

fn tell(id: u64, data: CmdData) -> (r: Outcome)
    ensures
        r@ == told(id, data@),
{
    let r = Outcome { effects: Vec::new(), step: Step::Done(CmdResponse::ok(id, Some(data))) };
    assert(r@ =~= told(id, data@));
    r
}

fn finish_with(id: u64, effect: Effect) -> (r: Outcome)
    ensures
        r@ == done(seq![effect@], answer(id, None)),
{
    let mut effects: Vec<Effect> = Vec::new();
    effects.push(effect);
    assert(views(effects@) =~= seq![effect@]);
    finish(id, effects)
}

fn configure(setting: Setting) -> (r: Outcome)
    ensures
        r@ == configured(setting@),
{
    let r = Outcome { effects: Vec::new(), step: Step::Configure(setting) };
    assert(r@ =~= configured(setting@));
    r
}

/// The step in which the state machine takes a setting.
pub open spec fn configured(setting: SettingView) -> OutcomeView {
    OutcomeView { effects: Seq::empty(), step: StepView::Configure(setting) }
}

/// What a new start of the link brings about.
pub open spec fn reconnect_outcome(primary: Option<Id>, id: u64) -> OutcomeView {
    let lost = match primary {
        Some(p) => seq![EffectView::Emit(EventView::PeerLost { peer_id: p })],
        None => Seq::empty(),
    };
    done(seq![EffectView::DropPrimary] + lost, answer(id, Some(CmdDataView::Pong)))
}

fn reconnect(primary: Option<Id>, id: u64) -> (r: Outcome)
    ensures
        r@ == reconnect_outcome(primary, id),
{
    let mut effects: Vec<Effect> = Vec::new();
    effects.push(Effect::DropPrimary);
    if let Some(p) = primary {
        effects.push(Effect::Emit(Event::PeerLost { peer_id: p }));
    }
    let r = Outcome { effects, step: Step::Done(CmdResponse::ok(id, Some(CmdData::Pong))) };
    assert(r@.effects =~= reconnect_outcome(primary, id).effects);
    r
}

/// What a command that only asks, or only tells the state machine, comes to.
pub open spec fn plain_outcome(n: NodeView, c: CmdContext, id: u64, op: CmdOp) -> OutcomeView {
    match op {
        CmdOp::Status => told(
            id,
            CmdDataView::State {
                peers: Seq::new(c.linked@.len(), |i: int| info_of(n.meta, c.primary, c.linked@[i])),
            },
        ),
        CmdOp::Reconnect => reconnect_outcome(c.primary, id),
        CmdOp::SetFavorite { hash, favorite } => done(
            seq![EffectView::Handle(EventView::SetFavorite { hash: hash@, favorite })],
            answer(id, None),
        ),
        CmdOp::SetFirewall => configured(SettingView::Firewall),
        CmdOp::SetThreshold { value } => configured(SettingView::Threshold { value }),
        CmdOp::SetDeviceName { name } => configured(SettingView::DeviceName { name: name@ }),
        CmdOp::SetChargeOverride { value } => configured(SettingView::ChargeOverride { value }),
        CmdOp::ResolvePending { hash, allow } => OutcomeView {
            effects: Seq::empty(),
            step: StepView::Resolve { hash: hash@, allow },
        },
        CmdOp::Push { text } => push_outcome(c.max_payload, id, text@),
        CmdOp::PushImage { data, sensitive } => push_image_outcome(
            c.max_payload,
            id,
            data@,
            sensitive,
        ),
        CmdOp::Pull => told(
            id,
            CmdDataView::Pull(
                if c.history@.len() == 0 {
                    None
                } else {
                    Some(c.history@[0]@)
                },
            ),
        ),
        CmdOp::Tail { n } => told(id, CmdDataView::Tail { n }),
        CmdOp::Peers => told(
            id,
            CmdDataView::Peers(
                match peer_entry_of(c.peer, opt_view(c.peer_addr)) {
                    Some(p) => seq![p],
                    None => Seq::empty(),
                },
            ),
        ),
        CmdOp::Shutdown => done(seq![EffectView::Shutdown], answer(id, None)),
        CmdOp::Toggle { on } => done(
            seq![
                EffectView::Handle(
                    if on {
                        EventView::ToggleOn
                    } else {
                        EventView::ToggleOff
                    },
                ),
            ],
            answer(id, None),
        ),
        CmdOp::SetSelfBattery { level, charging } => done(
            seq![EffectView::Handle(EventView::BatteryChangedSelf { level, charging })],
            answer(id, None),
        ),
        CmdOp::PairFromUri { uri, name } => pair_uri_outcome(id, uri@, name@),
        CmdOp::PairAccept { pubkey_b32, name, addr } => pair_key_outcome(
            id,
            pubkey_b32@,
            name@,
            opt_view(addr),
        ),
        _ => arbitrary(),
    }
}

/// What a command does.
pub open spec fn cmd_step(
    n: NodeView,
    d: DeskView,
    c: CmdContext,
    id: u64,
    op: CmdOp,
    after: NodeView,
    after_d: DeskView,
    r: OutcomeView,
) -> bool {
    match op {
        CmdOp::ClearHistory { include_favorites } => clear_step(
            n,
            d,
            c,
            id,
            include_favorites,
            after,
            after_d,
            r,
        ),
        _ => after_d == d && match op {
            CmdOp::FetchItem { hash } => after == n && fetched(d.images, id, hash@, r),
            CmdOp::TrustList => after == n && exists|order: Seq<Id>| #[trigger]
                walks(n.trusted, order) && r == told(
                    id,
                    CmdDataView::TrustList(trusted_entries(n.trusted, order)),
                ),
            CmdOp::PairPending => {
                &&& after == (NodeView { pending: live_pairs(n.pending, c.now), ..n })
                &&& exists|order: Seq<Id>| #[trigger]
                    walks(after.pending, order) && r == told(
                        id,
                        CmdDataView::PendingPairs(
                            pending_entries(after.pending, c.addr_texts@, c.now, order),
                        ),
                    )
            },
            CmdOp::Unpair => {
                let change = AfterSaveView::Unpair { snapshot: n.trusted };
                &&& after == storing_node(all_distrusted(n), c.persists, change)
                &&& r == storing_outcome(
                    all_distrusted(n),
                    c.persists,
                    c.linked@,
                    c.on,
                    id,
                    seq![EffectView::SendPrimary { msg: MsgView::Revoke }],
                    change,
                )
            },
            CmdOp::Revoke { peer_id } => match id_of_text(peer_id@) {
                Err(e) => after == n && r == refused(id, bad_peer_id(e)),
                Ok(peer) => {
                    &&& after == storing_node(distrusted(n, peer), c.persists, revocation(n, peer))
                    &&& r == storing_outcome(
                        distrusted(n, peer),
                        c.persists,
                        c.linked@,
                        c.on,
                        id,
                        Seq::empty(),
                        revocation(n, peer),
                    )
                },
            },
            CmdOp::PairConfirm { peer_id, accept } => match id_of_text(peer_id@) {
                Err(e) => after == n && r == refused(id, bad_peer_id(e)),
                Ok(peer) => {
                    &&& after == confirm_node(n, c.persists, peer, accept)
                    &&& r == confirm_outcome(n, c.persists, c.linked@, c.on, id, peer, accept)
                },
            },
            CmdOp::PairShow => {
                &&& after == shown_node(n, c.now, c.fresh_pin@)
                &&& r == shown_outcome(n, c, id)
            },
            CmdOp::PairFromPin { pin, name } => after == n && pair_pin_step(
                n,
                c.now,
                id,
                pin@,
                name@,
                r,
            ),
            _ => after == n && r == plain_outcome(n, c, id, op),
        },
    }
}

/// Carries out a command, as far as it goes without the world outside.
pub fn handle_driver_cmd(node: &mut Node, desk: &mut Desk, ctx: &CmdContext, id: u64, op: CmdOp) -> (r: Outcome)
    requires
        ctx.now <= LAST_INSTANT,
        ctx.epoch_ms is Some ==> ctx.epoch_ms->0 <= LAST_INSTANT,
        images_fit(old(desk)@.images),
    ensures
        cmd_step(old(node)@, old(desk)@, *ctx, id, op, final(node)@, final(desk)@, r@),
{
    match op {
        CmdOp::Status => {
            let peers = build_peers(&ctx.linked, &node.meta, ctx.primary);
            tell(id, CmdData::State { peers })
        },
        CmdOp::Reconnect => reconnect(ctx.primary, id),
        CmdOp::SetFavorite { hash, favorite } => finish_with(
            id,
            Effect::Handle(Event::SetFavorite { hash, favorite }),
        ),
        CmdOp::ClearHistory { include_favorites } => clear_history(
            node,
            desk,
            ctx,
            id,
            include_favorites,
        ),
        CmdOp::SetFirewall => configure(Setting::Firewall),
        CmdOp::SetThreshold { value } => configure(Setting::Threshold { value }),
        CmdOp::SetDeviceName { name } => configure(Setting::DeviceName { name }),
        CmdOp::SetChargeOverride { value } => configure(Setting::ChargeOverride { value }),
        CmdOp::ResolvePending { hash, allow } => {
            let r = Outcome { effects: Vec::new(), step: Step::Resolve { hash, allow } };
            assert(r@.effects =~= Seq::empty());
            r
        },
        CmdOp::Push { text } => push_text(ctx.max_payload, id, text.as_str()),
        CmdOp::PushImage { data, sensitive } => push_image(
            ctx.max_payload,
            id,
            data.as_str(),
            sensitive,
        ),
        CmdOp::FetchItem { hash } => fetch_item(&desk.images, id, hash.as_str()),
        CmdOp::Pull => {
            let last = if ctx.history.len() == 0 {
                None
            } else {
                Some(ctx.history[0].clone())
            };
            tell(id, CmdData::Pull(last))
        },
        CmdOp::Tail { n } => tell(id, CmdData::Tail { n }),
        CmdOp::Peers => {
            let mut peers: Vec<PeerEntry> = Vec::new();
            if let Some(p) = peer_entry(&ctx.peer, &ctx.peer_addr) {
                peers.push(p);
            }
            assert(views(peers@) =~= match peer_entry_of(ctx.peer, opt_view(ctx.peer_addr)) {
                Some(p) => seq![p],
                None => Seq::empty(),
            });
            tell(id, CmdData::Peers(peers))
        },
        CmdOp::TrustList => tell(id, CmdData::TrustList(trust_list(&node.trusted))),
        CmdOp::Shutdown => finish_with(id, Effect::Shutdown),
        CmdOp::Unpair => unpair_all(node, ctx.persists, &ctx.linked, ctx.on, id),
        CmdOp::Toggle { on } => finish_with(
            id,
            Effect::Handle(
                if on {
                    Event::ToggleOn
                } else {
                    Event::ToggleOff
                },
            ),
        ),
        CmdOp::SetSelfBattery { level, charging } => finish_with(
            id,
            Effect::Handle(Event::BatteryChangedSelf { level, charging }),
        ),
        CmdOp::Revoke { peer_id } => match decode_hex32(peer_id.as_str()) {
            Err(e) => refuse_peer_id(id, e),
            Ok(peer) => revoke_peer(node, ctx.persists, &ctx.linked, ctx.on, id, peer),
        },
        CmdOp::PairPending => {
            let ghost n = node@;
            let pairs = pair_pending(&mut node.pending, &ctx.addr_texts, ctx.now);
            assert(node@ =~= (NodeView { pending: live_pairs(n.pending, ctx.now), ..n }));
            tell(id, CmdData::PendingPairs(pairs))
        },
        CmdOp::PairConfirm { peer_id, accept } => match decode_hex32(peer_id.as_str()) {
            Err(e) => refuse_peer_id(id, e),
            Ok(peer) => confirm_pair(node, ctx.persists, &ctx.linked, ctx.on, id, peer, accept),
        },
        CmdOp::PairShow => pair_show(node, ctx, id),
        CmdOp::PairFromUri { uri, name } => pair_from_uri(id, uri.as_str(), name),
        CmdOp::PairAccept { pubkey_b32, name, addr } => pair_accept(
            id,
            pubkey_b32.as_str(),
            name,
            addr,
        ),
        CmdOp::PairFromPin { pin, name } => pair_from_pin(node, ctx.now, id, pin.as_str(), name),
    }
}

/// What a setting brings about once the state machine took it or refused it. A new
/// threshold and a new override count for the battery as it is now.
pub open spec fn setting_outcome(
    c: CmdContext,
    id: u64,
    setting: SettingView,
    verdict: Result<(), Seq<char>>,
) -> OutcomeView {
    let saved = |e: EffectView|
        if c.persists {
            seq![e, EffectView::Announce]
        } else {
            seq![EffectView::Announce]
        };
    match verdict {
        Err(e) => refused(id, e),
        Ok(_) => done(
            match setting {
                SettingView::DeviceName { .. } => saved(EffectView::SaveDeviceName),
                SettingView::Firewall => saved(EffectView::SaveFirewall),
                _ => seq![
                    EffectView::Handle(
                        EventView::BatteryChangedSelf {
                            level: c.battery_level,
                            charging: c.charging,
                        },
                    ),
                ],
            },
            answer(id, None),
        ),
    }
}

/// Goes on with a setting once the state machine took it or refused it.
pub fn after_setting(ctx: &CmdContext, id: u64, setting: Setting, verdict: Result<(), String>) -> (r: Outcome)
    ensures
        r@ == setting_outcome(*ctx, id, setting@, verdict_view(verdict)),
{
    if let Err(e) = verdict {
        return refuse(id, e);
    }
    let mut effects: Vec<Effect> = Vec::new();
    match setting {
        Setting::DeviceName { .. } => {
            if ctx.persists {
                effects.push(Effect::SaveDeviceName);
            }
            effects.push(Effect::Announce);
        },
        Setting::Firewall => {
            if ctx.persists {
                effects.push(Effect::SaveFirewall);
            }
            effects.push(Effect::Announce);
        },
        _ => {
            effects.push(
                Effect::Handle(
                    Event::BatteryChangedSelf { level: ctx.battery_level, charging: ctx.charging },
                ),
            );
        },
    }
    assert(views(effects@) =~= setting_outcome(*ctx, id, setting@, Ok(())).effects);
    finish(id, effects)
}

/// The state machine wants an item written to the clipboard.
pub open spec fn writes_clipboard(actions: Seq<ActionView>) -> bool {
    exists|i: int| 0 <= i < actions.len() && #[trigger] actions[i] is WriteClipboard
}

fn any_write(actions: &Vec<Action>) -> (r: bool)
    ensures
        r == writes_clipboard(views(actions@)),
{
    let mut i: usize = 0;
    while i < actions.len()
        invariant
            i <= actions@.len(),
            forall|j: int| 0 <= j < i ==> !(#[trigger] views(actions@)[j] is WriteClipboard),
        decreases actions@.len() - i,
    {
        let writes = match &actions[i] {
            Action::WriteClipboard { .. } => true,
            _ => false,
        };
        assert(views(actions@)[i as int] == actions@[i as int]@);
        if writes {
            assert(views(actions@)[i as int] is WriteClipboard);
            return true;
        }
        i = i + 1;
    }
    false
}

/// What the decision on an item that waits admits to those kept for peers: the
/// item, if it came in, was allowed, and the state machine writes it.
pub open spec fn resolve_effects(
    stage: Map<Id, OutboxView>,
    hash: Seq<char>,
    allow: bool,
    actions: Seq<ActionView>,
) -> Seq<EffectView> {
    match id_of_text(hash) {
        Ok(h) => if allow && writes_clipboard(actions) && stage.contains_key(h) {
            seq![EffectView::AdmitToOutbox { hash: h, entry: stage[h] }]
        } else {
            Seq::empty()
        },
        Err(_) => Seq::empty(),
    }
}

/// The items that wait, after a decision on one.
pub open spec fn resolve_stage(stage: Map<Id, OutboxView>, hash: Seq<char>) -> Map<Id, OutboxView> {
    match id_of_text(hash) {
        Ok(h) => stage.remove(h),
        Err(_) => stage,
    }
}

/// Goes on with the decision on an item that waits, once the state machine has
/// said what it wants done. What is left to be carried out comes back in
/// `actions`.
pub fn after_resolve(
    node: &mut Node,
    primary: Option<Id>,
    hash: &str,
    allow: bool,
    actions: &mut Vec<Action>,
) -> (effects: Vec<Effect>)
    ensures
        views(effects@) == resolve_effects(old(node)@.stage, hash@, allow, views(old(actions)@)),
        final(node)@ == (NodeView { stage: resolve_stage(old(node)@.stage, hash@), ..old(node)@ }),
        views(final(actions)@) == let_through(views(old(actions)@), primary, old(node)@.pending),
{
    let ghost n = node@;
    let ghost all = views(actions@);
    let admitted = allow && any_write(actions);
    let mut effects: Vec<Effect> = Vec::new();
    if let Ok(h) = decode_hex32(hash) {
        if let Some(entry) = node.stage.remove(&h) {
            if admitted {
                effects.push(Effect::AdmitToOutbox { hash: h, entry });
            }
        }
    }
    assert(views(effects@) =~= resolve_effects(n.stage, hash@, allow, all));
    assert(node@ =~= (NodeView { stage: resolve_stage(n.stage, hash@), ..n }));
    let mut rest: Vec<Action> = Vec::new();
    std::mem::swap(&mut rest, actions);
    *actions = gate_outbound(rest, primary, &node.pending);
    effects
}

/// Whatever is decided, an item leaves the list of those that wait, and a denied
/// one is kept for nobody.
pub proof fn resolved_item_waits_no_more(
    stage: Map<Id, OutboxView>,
    h: Id,
    hash: Seq<char>,
    actions: Seq<ActionView>,
)
    requires
        id_of_text(hash) == Ok::<Id, IdError>(h),
    ensures
        !resolve_stage(stage, hash).contains_key(h),
        resolve_effects(stage, hash, false, actions) == Seq::<EffectView>::empty(),
        !writes_clipboard(actions) ==> resolve_effects(stage, hash, true, actions) == Seq::<
            EffectView,
        >::empty(),
{
}

/// An item that was cleared is not asked for again while the clearing is
/// remembered, whoever offers it, as long as what was cleared at once is not more
/// than what is remembered of it.
pub proof fn cleared_item_is_not_asked_for(
    n: NodeView,
    d: DeskView,
    c: CmdContext,
    id: u64,
    include_favorites: bool,
    after: NodeView,
    after_d: DeskView,
    r: OutcomeView,
    h: Id,
    l: Link,
)
    requires
        n.cleared.dom().finite(),
        clear_step(n, d, c, id, include_favorites, after, after_d, r),
        readable_ids(cleared_texts(views(c.history@), include_favorites)).contains(h),
        stamped_since(
            all_stamped(
                kept::<u64, NotOlder>(
                    n.cleared,
                    (NotOlder { max_age: c.outbox_max_age, now: c.now }),
                ),
                readable_ids(cleared_texts(views(c.history@), include_favorites)),
                c.now,
            ),
            c.now,
        ).len() <= MAX_CLEARED_TOMBSTONE,
        elapsed(c.now, l.now) <= l.outbox_max_age,
    ensures
        !wanted_hash(after, l, hex_of(h)),
{
    let live = kept::<u64, NotOlder>(
        n.cleared,
        (NotOlder { max_age: c.outbox_max_age, now: c.now }),
    );
    let ids = readable_ids(cleared_texts(views(c.history@), include_favorites));
    assert(live.dom().subset_of(n.cleared.dom()));
    vstd::set_lib::lemma_len_subset(live.dom(), n.cleared.dom());
    clearing_is_remembered(live, ids, c.now, MAX_CLEARED_TOMBSTONE as nat, after.cleared, h);
    let still = kept::<u64, NotOlder>(
        after.cleared,
        (NotOlder { max_age: l.outbox_max_age, now: l.now }),
    ).dom();
    assert(still.contains(h));
    assert(text_in(still, hex_of(h)));
}

/// Without the favourites, clearing takes no favourite.
pub proof fn clearing_spares_favourites(history: Seq<HistoryView>, t: Seq<char>)
    requires
        cleared_texts(history, false).contains(t),
    ensures
        exists|i: int| 0 <= i < history.len() && (#[trigger] history[i]).hash == t && !history[i].favorite,
    decreases history.len(),
{
    let rest = history.drop_last();
    let taken = cleared_texts(history, false);
    let i = taken.index_of(t);
    if i < cleared_texts(rest, false).len() {
        assert(cleared_texts(rest, false)[i] == t);
        clearing_spares_favourites(rest, t);
        let j = choose|j: int| 0 <= j < rest.len() && (#[trigger] rest[j]).hash == t && !rest[j].favorite;
        assert(history[j] == rest[j]);
    } else {
        assert(history[history.len() - 1].hash == t);
    }
}

/// No command trusts anybody before the key was looked at: what is trusted afterwards
/// was trusted before, and only the commands that take trust away change it.
pub proof fn commands_give_no_trust(
    n: NodeView,
    d: DeskView,
    c: CmdContext,
    id: u64,
    op: CmdOp,
    after: NodeView,
    after_d: DeskView,
    r: OutcomeView,
)
    requires
        cmd_step(n, d, c, id, op, after, after_d, r),
    ensures
        after.trusted.submap_of(n.trusted),
        !(op is Unpair || op is Revoke || op is PairConfirm) ==> after.trusted == n.trusted,
{
    assert(Map::<Id, TrustedView>::empty().submap_of(n.trusted));
    match op {
        CmdOp::Revoke { peer_id } => {
            if let Ok(peer) = id_of_text(peer_id@) {
                assert(n.trusted.remove(peer).submap_of(n.trusted));
            }
        },
        CmdOp::PairConfirm { peer_id, accept } => {
            if let Ok(peer) = id_of_text(peer_id@) {
                assert(n.trusted.remove(peer).submap_of(n.trusted));
            }
        },
        _ => {},
    }
}

/// A text that a client pushes counts as copied here, without the space around it and
/// under its hash; one that is too large is refused, and of mere space nothing is sent.
pub proof fn pushed_text_counts_as_copied(
    n: NodeView,
    d: DeskView,
    c: CmdContext,
    id: u64,
    op: CmdOp,
    after: NodeView,
    after_d: DeskView,
    r: OutcomeView,
    text: Seq<char>,
)
    requires
        cmd_step(n, d, c, id, op, after, after_d, r),
        op matches CmdOp::Push { text: t } && t@ == text,
    ensures
        after == n && after_d == d,
        encode_utf8(trimmed(text)).len() > c.max_payload ==> r.effects.len() == 0 && (
        r.step matches StepView::Done(a) && !a.ok && a.id == id),
        encode_utf8(trimmed(text)).len() <= c.max_payload ==> (r.step matches StepView::Done(a) && a.ok
            && a.id == id),
        encode_utf8(trimmed(text)).len() <= c.max_payload && trimmed(text).len() > 0 ==> r.effects
            == seq![EffectView::CopiedText { hash: text_hash(trimmed(text)), text: trimmed(text) }],
        encode_utf8(trimmed(text)).len() <= c.max_payload && trimmed(text).len() == 0
            ==> r.effects.len() == 0,
{
}

/// An image that a client pushes counts as copied here, with all its bytes and under
/// the hash of its pixels; what is too large, or no image, is refused.
pub proof fn pushed_image_counts_as_copied(
    n: NodeView,
    d: DeskView,
    c: CmdContext,
    id: u64,
    op: CmdOp,
    after: NodeView,
    after_d: DeskView,
    r: OutcomeView,
    data: Seq<char>,
    secret: bool,
    png: Seq<u8>,
)
    requires
        cmd_step(n, d, c, id, op, after, after_d, r),
        op matches CmdOp::PushImage { data: t, sensitive } && t@ == data && sensitive == secret,
    ensures
        after == n && after_d == d,
        base64_decoded(data) is Ok && base64_decoded(data)->Ok_0 == png && png.len() <= c.max_payload
            ==> match png_pixels(png) {
            Some((w, h, rgba)) => {
                &&& r.effects.len() == 1
                &&& r.effects[0] matches EffectView::CopiedImage {
                    hash,
                    png: p,
                    sensitive,
                    preview,
                } && {
                    &&& hash == image_hash(w, h, rgba)
                    &&& preview == label(Kind::Image, png)
                    &&& p == png
                    &&& sensitive == secret
                }
                &&& r.step matches StepView::Done(a) && a.ok && a.id == id
            },
            None => r.effects.len() == 0 && (r.step matches StepView::Done(a) && !a.ok && a.id == id),
        },
        base64_decoded(data) is Ok && base64_decoded(data)->Ok_0 == png && png.len() > c.max_payload
            ==> r.effects.len() == 0 && (r.step matches StepView::Done(a) && !a.ok),
        base64_decoded(data) is Err ==> r.effects.len() == 0 && (r.step matches StepView::Done(a)
            && !a.ok),
{
}

/// A client that asks for an image by its hash gets the bytes that are kept under it,
/// and a failure where none are.
pub proof fn kept_image_is_handed_out(
    n: NodeView,
    d: DeskView,
    c: CmdContext,
    id: u64,
    op: CmdOp,
    after: NodeView,
    after_d: DeskView,
    r: OutcomeView,
    hash: Seq<char>,
    i: int,
)
    requires
        cmd_step(n, d, c, id, op, after, after_d, r),
        op matches CmdOp::FetchItem { hash: h } && h@ == hash,
    ensures
        after == n && after_d == d && r.effects.len() == 0,
        0 <= i < d.images.len() && d.images[i].0 == hash && (forall|j: int|
            0 <= j < i ==> (#[trigger] d.images[j]).0 != hash) ==> (r.step matches StepView::Done(a)
            && a.ok && a.id == id && a.data == Some(
            CmdDataView::ItemBytes { bytes: base64_encoded(d.images[i].1) },
        )),
        (forall|j: int| 0 <= j < d.images.len() ==> (#[trigger] d.images[j]).0 != hash) ==> (
        r.step matches StepView::Done(a) && !a.ok && a.id == id),
{
    if 0 <= i < d.images.len() && d.images[i].0 == hash && (forall|j: int|
        0 <= j < i ==> (#[trigger] d.images[j]).0 != hash) {
        assert(is_cached(d.images, hash));
        let png = choose|png: Seq<u8>| #[trigger]
            found_image(d.images, hash, png) && r == done(
                Seq::empty(),
                answer(id, Some(CmdDataView::ItemBytes { bytes: base64_encoded(png) })),
            );
        assert(found_image(d.images, hash, png));
        let k = choose|k: int|
            {
                &&& 0 <= k < d.images.len()
                &&& #[trigger] d.images[k] == (hash, png)
                &&& forall|j: int| 0 <= j < k ==> (#[trigger] d.images[j]).0 != hash
            };
        assert(k == i) by {
            if k < i {
                assert(d.images[k].0 != hash);
            }
            if i < k {
                assert(d.images[i].0 != hash);
            }
        }
    }
}

/// Clearing takes every item that is no favourite, and the favourites too where they
/// are named.
pub proof fn clearing_takes_the_rest(history: Seq<HistoryView>, include_favorites: bool, i: int)
    requires
        0 <= i < history.len(),
        include_favorites || !history[i].favorite,
    ensures
        cleared_texts(history, include_favorites).contains(history[i].hash),
    decreases history.len(),
{
    let rest = history.drop_last();
    let before = cleared_texts(rest, include_favorites);
    let all = cleared_texts(history, include_favorites);
    if i < rest.len() {
        assert(rest[i] == history[i]);
        clearing_takes_the_rest(rest, include_favorites, i);
        assert(all[before.index_of(history[i].hash)] == history[i].hash);
    } else {
        assert(all[before.len() as int] == history[i].hash);
    }
}

proof fn lemma_readable(texts: Seq<Seq<char>>, h: Id)
    requires
        texts.contains(hex_of(h)),
    ensures
        readable_ids(texts).contains(h),
    decreases texts.len(),
{
    let rest = texts.drop_last();
    let before = readable_ids(rest);
    let all = readable_ids(texts);
    crate::driver::resync::id_text_reads_back(h);
    if texts.last() == hex_of(h) {
        assert(all[before.len() as int] == h);
    } else {
        let i = texts.index_of(hex_of(h));
        assert(rest[i] == hex_of(h));
        lemma_readable(rest, h);
        assert(all[before.index_of(h)] == h);
    }
}

/// An item that a clearing takes is kept for no other device any more, its image is
/// gone, and the state machine is told to clear; nothing else changes but what is
/// remembered as cleared.
pub proof fn cleared_item_is_gone(
    n: NodeView,
    d: DeskView,
    c: CmdContext,
    id: u64,
    op: CmdOp,
    after: NodeView,
    after_d: DeskView,
    r: OutcomeView,
    all_of_it: bool,
    i: int,
    h: Id,
    png: Seq<u8>,
)
    requires
        cmd_step(n, d, c, id, op, after, after_d, r),
        op matches CmdOp::ClearHistory { include_favorites } && include_favorites == all_of_it,
        0 <= i < c.history@.len(),
        views(c.history@)[i].hash == hex_of(h),
        all_of_it || !views(c.history@)[i].favorite,
    ensures
        r.effects.len() == 2,
        r.effects[0] matches EffectView::RemoveFromOutbox { hashes } && hashes.contains(h),
        r.effects[1] == EffectView::Handle(
            EventView::ClearHistory { include_favorites: all_of_it },
        ),
        r.step matches StepView::Done(a) && a.ok && a.id == id,
        !after_d.images.contains((hex_of(h), png)),
        after_d.written == d.written,
        after == (NodeView { cleared: after.cleared, ..n }),
{
    let history = views(c.history@);
    let texts = cleared_texts(history, all_of_it);
    clearing_takes_the_rest(history, all_of_it, i);
    lemma_readable(texts, h);
    crate::driver::content::clearing_takes_the_named_images(d.images, texts, (hex_of(h), png));
}

/// The pairing URI that a device shows leads another to its key and its addresses:
/// as long as the key's text can be read back, which holds of every text that the
/// encoding gives, the other looks at exactly that key, and has the addresses in
/// their order.
pub proof fn shown_device_can_be_paired_with(
    n: NodeView,
    c: CmdContext,
    shown_id: u64,
    uri: Seq<char>,
    id: u64,
    name: Seq<char>,
)
    requires
        shown_outcome(n, c, shown_id).step matches StepView::Done(a) && (a.data matches Some(
            CmdDataView::PairInfo { uri: u, .. },
        ) && u == uri),
        c.lan_addr@.len() > 0,
        !c.lan_addr@.contains(',') && !c.lan_addr@.contains('&'),
        c.tailnet_addr matches Some(t) ==> t@.len() > 0 && !t@.contains(',') && !t@.contains('&'),
        c.own.words@.len() > 0,
        forall|i: int|
            0 <= i < views(c.own.words@).len() ==> !(#[trigger] views(c.own.words@)[i]).contains('&')
                && !views(c.own.words@)[i].contains('.'),
    ensures
        ({
            let key = base32_encoded(c.own.static_pub@);
            let r = pair_uri_outcome(id, uri, name);
            key.len() > 0 && !key.contains('?') && base32_decoded(key) == Some(c.own.static_pub@) ==> {
                &&& r.effects.len() == 0
                &&& r.step matches StepView::CheckKey(req) && {
                    &&& req.key == c.own.static_pub
                    &&& req.name == name
                    &&& req.way == PairWay::Uri
                    &&& req.hints == match c.tailnet_addr {
                        Some(t) => seq![c.lan_addr@, t@],
                        None => seq![c.lan_addr@],
                    }
                }
            }
        }),
{
    let key = base32_encoded(c.own.static_pub@);
    let words = views(c.own.words@);
    if key.len() > 0 && !key.contains('?') {
        let hints = match c.tailnet_addr {
            Some(t) => seq![c.lan_addr@, t@],
            None => seq![c.lan_addr@],
        };
        reveal_with_fuel(crate::text::with_between, 3);
        reveal_strlit(",");
        assert(hints.drop_last().len() <= 1);
        assert(crate::text::with_between(hints, ',') =~= uri_addrs(
            c.lan_addr@,
            opt_view(c.tailnet_addr),
        )) by {
            if c.tailnet_addr is Some {
                assert(hints.drop_last() =~= seq![c.lan_addr@]);
                assert(","@ =~= seq![',']);
            }
        }
        crate::uri::hints_round_trip(key, hints, words);
        crate::driver::resync::id_has_its_bytes(c.own.static_pub);
    }
}

/// Showing a device lets strangers pair for ninety seconds, and shows the code, its
/// key, its words and its address; it goes online.
pub proof fn showing_opens_the_window(
    n: NodeView,
    d: DeskView,
    c: CmdContext,
    id: u64,
    op: CmdOp,
    after: NodeView,
    after_d: DeskView,
    r: OutcomeView,
)
    requires
        cmd_step(n, d, c, id, op, after, after_d, r),
        op is PairShow,
        c.now <= LAST_INSTANT,
    ensures
        after.window == Some((c.now + 90_000) as u64),
        after.pin matches Some(p) && p.pin == c.fresh_pin@ && p.expires_at == c.now + 90_000,
        after == (NodeView { window: after.window, pin: after.pin, ..n }),
        r.effects.contains(EffectView::PublishPin { pin: Some(c.fresh_pin@) }),
        r.effects.contains(EffectView::WatchPin) == (n.pin is None),
        r.effects.contains(EffectView::Handle(EventView::ToggleOn)) == !c.on,
        r.step matches StepView::Done(a) && a.ok && a.id == id && (a.data matches Some(
            CmdDataView::PairInfo {
                peer_id_hex,
                pubkey_b32,
                fingerprint_words,
                addr_hint,
                pin,
                pin_expires_at_ms,
                tailnet_addr_hint,
                ..
            },
        ) && {
            &&& tailnet_addr_hint == opt_view(c.tailnet_addr)
            &&& c.epoch_ms matches Some(t) ==> pin_expires_at_ms == Some((t + 90_000) as u64)
            &&& peer_id_hex == hex_text(c.own.peer_id@)
            &&& pubkey_b32 == base32_encoded(c.own.static_pub@)
            &&& fingerprint_words == views(c.own.words@)
            &&& addr_hint == c.lan_addr@
            &&& pin == Some(c.fresh_pin@)
        }),
{
    let out = r.effects;
    assert(out[0] == EffectView::PublishPin { pin: Some(c.fresh_pin@) });
    if n.pin is None {
        assert(out[1] == EffectView::WatchPin);
    }
    if !c.on {
        assert(out[out.len() - 1] == EffectView::Handle(EventView::ToggleOn));
    }
}

/// A pairing by code leads to a device that shows that code and was seen within the
/// last two minutes, under its own key and at its address; where there is one, the
/// pairing goes on, and where there is none, it is refused.
pub proof fn code_leads_to_the_device_that_shows_it(
    n: NodeView,
    d: DeskView,
    c: CmdContext,
    id: u64,
    op: CmdOp,
    after: NodeView,
    after_d: DeskView,
    r: OutcomeView,
    code: Seq<char>,
    own_name: Seq<char>,
    peer: Id,
)
    requires
        cmd_step(n, d, c, id, op, after, after_d, r),
        op matches CmdOp::PairFromPin { pin, name } && pin@ == code && name@ == own_name,
    ensures
        after == n && r.effects.len() == 0,
        r.step matches StepView::CheckKey(req) ==> req.name == own_name && exists|p: Id|
            {
                &&& #[trigger] n.discovered.contains_key(p)
                &&& n.discovered[p].pair_pin == Some(code)
                &&& elapsed(n.discovered[p].last_seen, c.now) < 120_000
                &&& req.key == n.discovered[p].static_pub
                &&& req.way == PairWay::Pin(n.discovered[p].addr)
            },
        code.len() == 6 && (forall|i: int| 0 <= i < 6 ==> '0' <= #[trigger] code[i] <= '9')
            && n.discovered.contains_key(peer) && n.discovered[peer].pair_pin == Some(code) && elapsed(
            n.discovered[peer].last_seen,
            c.now,
        ) < 120_000 ==> r.step is CheckKey,
        !(r.step is CheckKey) ==> (r.step matches StepView::Done(a) && !a.ok && a.id == id),
        code.len() != 6 ==> !(r.step is CheckKey),
{
    if r.step is CheckKey {
        let p = choose|p: Id| #[trigger]
            shows_pin(n.discovered, p, code, c.now) && r == key_check(
                n.discovered[p].static_pub,
                own_name,
                PairWay::Pin(n.discovered[p].addr),
                Seq::empty(),
            );
        assert(n.discovered.contains_key(p));
    }
    if n.discovered.contains_key(peer) && n.discovered[peer].pair_pin == Some(code) && elapsed(
        n.discovered[peer].last_seen,
        c.now,
    ) < 120_000 {
        assert(shows_pin(n.discovered, peer, code, c.now));
    }
}

/// A pairing by URI or by key looks at exactly the key that the text writes out; a
/// text that writes out none, or not 32 bytes, is refused.
pub proof fn named_key_is_looked_at(
    n: NodeView,
    d: DeskView,
    c: CmdContext,
    id: u64,
    op: CmdOp,
    after: NodeView,
    after_d: DeskView,
    r: OutcomeView,
    key: Id,
)
    requires
        cmd_step(n, d, c, id, op, after, after_d, r),
    ensures
        op matches CmdOp::PairAccept { pubkey_b32, name, addr } ==> {
            &&& after == n && r.effects.len() == 0
            &&& base32_decoded(pubkey_b32@) == Some(key@) ==> (r.step matches StepView::CheckKey(req)
                && {
                &&& req.key == key && req.name == name@ && req.way == PairWay::Key
                &&& req.hints == match addr {
                    Some(a) => seq![a@],
                    None => Seq::empty(),
                }
            })
            &&& (base32_decoded(pubkey_b32@) matches Some(b) ==> b.len() != 32) ==> (
            r.step matches StepView::Done(a) && !a.ok && a.id == id)
        },
        op matches CmdOp::PairFromUri { uri, name } ==> {
            &&& after == n && r.effects.len() == 0
            &&& parsed_uri(uri@) matches Ok(u) ==> (base32_decoded(u.pubkey_b32) == Some(key@) ==> (
            r.step matches StepView::CheckKey(req) && {
                &&& req.key == key && req.name == name@ && req.way == PairWay::Uri
                &&& req.hints == u.addr_hints
            }))
            &&& parsed_uri(uri@) is Err ==> (r.step matches StepView::Done(a) && !a.ok && a.id == id)
        },
{
    crate::driver::resync::id_has_its_bytes(key);
}

/// Revoking a peer takes its trust away, with where it was seen and its backoff, and
/// has that stored before the peer is told; nobody else's trust changes.
pub proof fn revoking_takes_trust_away(
    n: NodeView,
    d: DeskView,
    c: CmdContext,
    id: u64,
    op: CmdOp,
    after: NodeView,
    after_d: DeskView,
    r: OutcomeView,
    peer: Id,
    other: Id,
)
    requires
        cmd_step(n, d, c, id, op, after, after_d, r),
        op matches CmdOp::Revoke { peer_id } && peer_id@ == hex_text(peer@),
    ensures
        !after.trusted.contains_key(peer) && !after.discovered.contains_key(peer)
            && !after.backoff.contains_key(peer),
        other != peer ==> after.trusted.contains_key(other) == n.trusted.contains_key(other),
        other != peer && n.trusted.contains_key(other) ==> after.trusted[other] == n.trusted[other],
        c.persists ==> r.effects.len() == 0 && (r.step matches StepView::Save(
            AfterSaveView::Revoke { peer: p, .. },
        ) && p == peer),
        !c.persists ==> (r.step matches StepView::Done(a) && a.ok) && r.effects.contains(
            EffectView::PurgePeer { peer },
        ),
{
    crate::driver::resync::id_text_reads_back(peer);
    if !c.persists {
        crate::driver::pairing::leaving_peer_is_told(
            distrusted(n, peer),
            c.linked@,
            c.on,
            id,
            peer,
            arbitrary(),
            crate::driver::pairing::trust_in(n, peer),
        );
        let rest = crate::driver::pairing::save_outcome(
            distrusted(n, peer),
            c.linked@,
            c.on,
            id,
            revocation(n, peer),
            Ok(()),
        ).effects;
        assert(r.effects =~= rest);
    }
}

/// Unpairing takes the trust in every peer away, and tells the primary; that is stored
/// before the state machine learns of it.
pub proof fn unpairing_trusts_nobody(
    n: NodeView,
    d: DeskView,
    c: CmdContext,
    id: u64,
    op: CmdOp,
    after: NodeView,
    after_d: DeskView,
    r: OutcomeView,
)
    requires
        cmd_step(n, d, c, id, op, after, after_d, r),
        op is Unpair,
    ensures
        forall|p: Id| !#[trigger] after.trusted.contains_key(p),
        r.effects.len() > 0 && r.effects[0] == (EffectView::SendPrimary { msg: MsgView::Revoke }),
        c.persists ==> r.effects.len() == 1 && (r.step matches StepView::Save(
            AfterSaveView::Unpair { snapshot },
        ) && snapshot == n.trusted),
        !c.persists ==> r.effects.len() == 2 && r.effects[1] == EffectView::Handle(
            EventView::ManualUnpair,
        ) && (r.step matches StepView::Done(a) && a.ok),
{
}

/// Every trusted peer is listed, with its id, its key and its name, and nobody else is.
pub proof fn trust_list_is_complete(
    n: NodeView,
    d: DeskView,
    c: CmdContext,
    id: u64,
    op: CmdOp,
    after: NodeView,
    after_d: DeskView,
    r: OutcomeView,
    peer: Id,
    i: int,
)
    requires
        cmd_step(n, d, c, id, op, after, after_d, r),
        op is TrustList,
    ensures
        after == n && r.effects.len() == 0,
        r.step matches StepView::Done(a) && a.ok && a.id == id && (a.data matches Some(
            CmdDataView::TrustList(list),
        ) && {
            &&& n.trusted.contains_key(peer) ==> list.contains(
                (TrustedEntryView {
                    peer_id_hex: hex_text(peer@),
                    static_pub_hex: hex_text(n.trusted[peer].static_pub@),
                    name: n.trusted[peer].name,
                }),
            )
            &&& 0 <= i < list.len() ==> exists|p: Id| #[trigger]
                n.trusted.contains_key(p) && list[i].peer_id_hex == hex_text(p@)
                    && list[i].static_pub_hex == hex_text(n.trusted[p].static_pub@) && list[i].name
                    == n.trusted[p].name
        }),
{
    let order = choose|order: Seq<Id>| #[trigger]
        walks(n.trusted, order) && r == told(
            id,
            CmdDataView::TrustList(trusted_entries(n.trusted, order)),
        );
    let list = trusted_entries(n.trusted, order);
    if n.trusted.contains_key(peer) {
        assert(order.to_set().contains(peer));
        assert(order.contains(peer));
        assert(list[order.index_of(peer)] == trusted_entry(n.trusted, peer));
    }
    if 0 <= i < list.len() {
        assert(order.contains(order[i]));
        assert(order.to_set().contains(order[i]));
        assert(n.trusted.contains_key(order[i]));
    }
}

/// Every pair that waits and whose time is not up is listed, with its name and its
/// words; those whose time is up wait no more.
pub proof fn pending_list_is_complete(
    n: NodeView,
    d: DeskView,
    c: CmdContext,
    id: u64,
    op: CmdOp,
    after: NodeView,
    after_d: DeskView,
    r: OutcomeView,
    peer: Id,
)
    requires
        cmd_step(n, d, c, id, op, after, after_d, r),
        op is PairPending,
    ensures
        after == (NodeView { pending: after.pending, ..n }),
        after.pending.contains_key(peer) == (n.pending.contains_key(peer)
            && n.pending[peer].expires_at > c.now),
        after.pending.contains_key(peer) ==> after.pending[peer] == n.pending[peer],
        r.step matches StepView::Done(a) && a.ok && a.id == id && (a.data matches Some(
            CmdDataView::PendingPairs(list),
        ) && (after.pending.contains_key(peer) ==> list.contains(
            (PendingEntryView {
                peer_id: hex_text(peer@),
                name: n.pending[peer].name,
                sas_words: n.pending[peer].sas_words,
                addr: if c.addr_texts@.contains_key(peer) {
                    Some(c.addr_texts@[peer])
                } else {
                    None
                },
                expires_in_ms: Some((n.pending[peer].expires_at - c.now) as u64),
            }),
        ))),
{
    let order = choose|order: Seq<Id>| #[trigger]
        walks(after.pending, order) && r == told(
            id,
            CmdDataView::PendingPairs(pending_entries(after.pending, c.addr_texts@, c.now, order)),
        );
    let list = pending_entries(after.pending, c.addr_texts@, c.now, order);
    assert(r == told(id, CmdDataView::PendingPairs(list)));
    if after.pending.contains_key(peer) {
        assert(order.to_set().contains(peer));
        assert(order.contains(peer));
        let i = order.index_of(peer);
        assert(list[i] == pending_entry(after.pending, c.addr_texts@, c.now, peer));
        assert(after.pending[peer] == n.pending[peer]);
    }
}

/// The switches do what they say: the synchronisation goes on or off, the daemon stops,
/// a favourite is marked, this device's battery is told, and a new start of the link
/// drops the primary's session and reports it lost.
pub proof fn switches_do_what_they_say(
    n: NodeView,
    d: DeskView,
    c: CmdContext,
    id: u64,
    op: CmdOp,
    after: NodeView,
    after_d: DeskView,
    r: OutcomeView,
)
    requires
        cmd_step(n, d, c, id, op, after, after_d, r),
        op is Toggle || op is Shutdown || op is SetFavorite || op is SetSelfBattery || op is Reconnect,
    ensures
        after == n && after_d == d,
        r.step matches StepView::Done(a) && a.ok && a.id == id,
        op matches CmdOp::Toggle { on } ==> r.effects == if on {
            seq![EffectView::Handle(EventView::ToggleOn)]
        } else {
            seq![EffectView::Handle(EventView::ToggleOff)]
        },
        op is Shutdown ==> r.effects == seq![EffectView::Shutdown],
        op matches CmdOp::SetFavorite { hash, favorite } ==> r.effects == seq![
            EffectView::Handle(EventView::SetFavorite { hash: hash@, favorite }),
        ],
        op matches CmdOp::SetSelfBattery { level, charging } ==> r.effects == seq![
            EffectView::Handle(EventView::BatteryChangedSelf { level, charging }),
        ],
        op is Reconnect ==> r.effects == match c.primary {
            Some(p) => seq![
                EffectView::DropPrimary,
                EffectView::Emit(EventView::PeerLost { peer_id: p }),
            ],
            None => seq![EffectView::DropPrimary],
        },
{
    if op is Reconnect {
        assert(r.effects =~= match c.primary {
            Some(p) => seq![
                EffectView::DropPrimary,
                EffectView::Emit(EventView::PeerLost { peer_id: p }),
            ],
            None => seq![EffectView::DropPrimary],
        });
    }
}

/// Questions are answered and change nothing: the newest item of the history, every
/// linked peer under its id, the peer that the state describes, and the log.
pub proof fn questions_are_answered(
    n: NodeView,
    d: DeskView,
    c: CmdContext,
    id: u64,
    op: CmdOp,
    after: NodeView,
    after_d: DeskView,
    r: OutcomeView,
)
    requires
        cmd_step(n, d, c, id, op, after, after_d, r),
        op is Pull || op is Status || op is Peers || op is Tail,
    ensures
        after == n && after_d == d && r.effects.len() == 0,
        r.step matches StepView::Done(a) && a.ok && a.id == id && {
            &&& op is Pull ==> a.data == Some(
                CmdDataView::Pull(
                    if c.history@.len() == 0 {
                        None
                    } else {
                        Some(c.history@[0]@)
                    },
                ),
            )
            &&& op matches CmdOp::Tail { n: lines } ==> a.data == Some(CmdDataView::Tail { n: lines })
            &&& op is Status ==> (a.data matches Some(CmdDataView::State { peers }) && {
                &&& peers.len() == c.linked@.len()
                &&& forall|i: int|
                    0 <= i < peers.len() ==> {
                        &&& (#[trigger] peers[i]).peer_id == c.linked@[i]
                        &&& peers[i].primary == (c.primary == Some(c.linked@[i]))
                        &&& n.meta.contains_key(c.linked@[i]) ==> peers[i].name
                            == n.meta[c.linked@[i]].name && peers[i].battery
                            == n.meta[c.linked@[i]].battery && peers[i].charging
                            == n.meta[c.linked@[i]].charging
                    }
            })
            &&& op is Peers ==> (a.data matches Some(CmdDataView::Peers(list)) && {
                &&& c.peer.name@.len() == 0 ==> list.len() == 0
                &&& c.peer.name@.len() > 0 ==> list.len() == 1 && list[0].name == c.peer.name@
                    && list[0].battery == c.peer.battery && list[0].charging == c.peer.charging
                    && list[0].link_latency_ms == c.peer.link_latency_ms && list[0].linked
                    == !c.peer.inactive && (c.peer_addr matches Some(t) ==> list[0].addr == t@)
            })
        },
{
}

/// A setting is handed to the state machine as it was given; once that has taken it, it
/// is stored where it outlives a run, and counts at once for the battery as it is. One
/// that it refuses is answered with its reason and changes nothing.
pub proof fn settings_are_taken(
    n: NodeView,
    d: DeskView,
    c: CmdContext,
    id: u64,
    op: CmdOp,
    after: NodeView,
    after_d: DeskView,
    r: OutcomeView,
    setting: SettingView,
    why: Seq<char>,
)
    ensures
        cmd_step(n, d, c, id, op, after, after_d, r) ==> {
            &&& op matches CmdOp::SetThreshold { value } ==> r.step == StepView::Configure(
                SettingView::Threshold { value },
            )
            &&& op matches CmdOp::SetDeviceName { name } ==> r.step == StepView::Configure(
                SettingView::DeviceName { name: name@ },
            )
            &&& op matches CmdOp::SetChargeOverride { value } ==> r.step == StepView::Configure(
                SettingView::ChargeOverride { value },
            )
            &&& op is SetFirewall ==> r.step == StepView::Configure(SettingView::Firewall)
            &&& op matches CmdOp::ResolvePending { hash, allow } ==> r.step == (StepView::Resolve {
                hash: hash@,
                allow,
            })
        },
        ({
            let taken = setting_outcome(c, id, setting, Ok(()));
            let refused = setting_outcome(c, id, setting, Err(why));
            &&& taken.step matches StepView::Done(a) && a.ok && a.id == id
            &&& taken.effects.contains(EffectView::SaveDeviceName) == (setting is DeviceName
                && c.persists)
            &&& taken.effects.contains(EffectView::SaveFirewall) == (setting is Firewall && c.persists)
            &&& setting is DeviceName || setting is Firewall ==> taken.effects.contains(
                EffectView::Announce,
            )
            &&& setting is Threshold || setting is ChargeOverride ==> taken.effects == seq![
                EffectView::Handle(
                    EventView::BatteryChangedSelf { level: c.battery_level, charging: c.charging },
                ),
            ]
            &&& refused.effects.len() == 0
            &&& refused.step matches StepView::Done(a) && !a.ok && a.id == id && a.err == Some(why)
        }),
{
    let taken = setting_outcome(c, id, setting, Ok(())).effects;
    if setting is DeviceName || setting is Firewall {
        assert(taken[taken.len() - 1] == EffectView::Announce);
        if c.persists {
            assert(taken[0] == if setting is DeviceName {
                EffectView::SaveDeviceName
            } else {
                EffectView::SaveFirewall
            });
        }
    }
}

/// An item that waited, that the user allows and that the state machine writes, is kept
/// for others as it came in; no other item that waits is touched.
pub proof fn allowed_item_is_kept(
    stage: Map<Id, OutboxView>,
    h: Id,
    actions: Seq<ActionView>,
    i: int,
    other: Id,
)
    requires
        0 <= i < actions.len(),
        actions[i] is WriteClipboard,
        stage.contains_key(h),
    ensures
        resolve_effects(stage, hex_of(h), true, actions) == seq![
            EffectView::AdmitToOutbox { hash: h, entry: stage[h] },
        ],
        !resolve_stage(stage, hex_of(h)).contains_key(h),
        other != h ==> resolve_stage(stage, hex_of(h)).contains_key(other) == stage.contains_key(other),
        other != h && stage.contains_key(other) ==> resolve_stage(stage, hex_of(h))[other]
            == stage[other],
{
    crate::driver::resync::id_text_reads_back(h);
}

/// The user's word on a pair is taken for the peer that it names; a text that names none
/// changes nothing and is answered with a failure, as it is for a revocation.
pub proof fn users_word_is_taken(
    n: NodeView,
    d: DeskView,
    c: CmdContext,
    id: u64,
    op: CmdOp,
    after: NodeView,
    after_d: DeskView,
    r: OutcomeView,
    peer: Id,
)
    requires
        cmd_step(n, d, c, id, op, after, after_d, r),
    ensures
        op matches CmdOp::PairConfirm { peer_id, accept } ==> {
            &&& peer_id@ == hex_text(peer@) ==> after == confirm_node(n, c.persists, peer, accept) && r
                == confirm_outcome(n, c.persists, c.linked@, c.on, id, peer, accept)
            &&& peer_id@.len() != 64 ==> after == n && r.effects.len() == 0 && (
            r.step matches StepView::Done(a) && !a.ok && a.id == id)
        },
        op matches CmdOp::Revoke { peer_id } ==> (peer_id@.len() != 64 ==> after == n
            && r.effects.len() == 0 && (r.step matches StepView::Done(a) && !a.ok && a.id == id)),
{
    crate::driver::resync::id_text_reads_back(peer);
}

} // verus!
