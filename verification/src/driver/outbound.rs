//! What leaves the device: fanning items out and sending them on, and carrying
//! out what the state machine wants done.
use vstd::prelude::*;
use vstd::string::*;
use vstd::utf8::encode_utf8;

use crate::codec::{hex_encode_bytes, hex_text, png_pixels};
use crate::driver::content::{
    clipboard_dedup_hash, decode_png_to_rgba, encoded_text_is_shown, image_hash, image_rgba_hash,
    is_cached, newest, shown_text, text_hash, text_of, ImageCache, IMAGE_CACHE_CAP,
};
use crate::driver::effects::{Effect, EffectView};
use crate::driver::inflight::{
    after_sending, copy_bytes, copy_frames, track_sent, Inflight, InflightView,
};
use crate::driver::peers::{build_peers, copy_texts, info_of, PeerMeta, PeerMetaView};
use crate::driver::resync::{OutboxEntry, OutboxView};
use crate::handshake::{PendingPair, PendingView};
use crate::idmap::IdMap;
use crate::ids::{same_id, Id};
use crate::text::same_text;
use crate::wire::{take_first, views, Action, ActionView, Hello, HelloView, Kind, Metric, Msg, MsgView};

verus! {

/// A peer to which an item from `source` is sent on: not back to the source, not
/// to where it comes from, and not while it waits for confirmation.
pub open spec fn relay_rule(pending: Map<Id, PendingView>, source: Id, origin: Id) -> spec_fn(
    Id,
) -> bool {
    |d: Id| d != source && d != origin && !pending.contains_key(d)
}

/// The linked peers to which an item from `source` is sent on.
pub open spec fn relay_targets(
    linked: Seq<Id>,
    pending: Map<Id, PendingView>,
    source: Id,
    origin: Id,
) -> Seq<Id> {
    linked.filter(relay_rule(pending, source, origin))
}

/// The linked peers to which an item copied here is sent: all but those that wait
/// for confirmation.
pub open spec fn send_targets(linked: Seq<Id>, pending: Map<Id, PendingView>) -> Seq<Id> {
    linked.filter(|d: Id| !pending.contains_key(d))
}

fn relay_list(linked: &Vec<Id>, pending: &IdMap<PendingPair>, source: Id, origin: Id) -> (r: Vec<Id>)
    ensures
        r@ == relay_targets(linked@, pending@, source, origin),
{
    let ghost p = relay_rule(pending@, source, origin);
    let mut r: Vec<Id> = Vec::new();
    let mut i: usize = 0;
    proof {
        reveal(Seq::filter);
        assert(linked@.subrange(0, 0) =~= Seq::empty());
        assert(r@ =~= linked@.subrange(0, 0).filter(p));
    }
    while i < linked.len()
        invariant
            i <= linked@.len(),
            p == relay_rule(pending@, source, origin),
            r@ == linked@.subrange(0, i as int).filter(p),
        decreases linked@.len() - i,
    {
        proof {
            reveal(Seq::filter);
            let next = linked@.subrange(0, i + 1);
            assert(next.drop_last() =~= linked@.subrange(0, i as int));
        }
        let d = linked[i];
        if !same_id(&d, &source) && !same_id(&d, &origin) && !pending.contains_key(&d) {
            r.push(d);
        }
        i = i + 1;
    }
    assert(linked@.subrange(0, linked@.len() as int) =~= linked@);
    r
}

fn send_list(linked: &Vec<Id>, pending: &IdMap<PendingPair>) -> (r: Vec<Id>)
    ensures
        r@ == send_targets(linked@, pending@),
{
    let ghost p = |d: Id| !pending@.contains_key(d);
    let mut r: Vec<Id> = Vec::new();
    let mut i: usize = 0;
    proof {
        reveal(Seq::filter);
        assert(linked@.subrange(0, 0) =~= Seq::empty());
        assert(r@ =~= linked@.subrange(0, 0).filter(p));
    }
    while i < linked.len()
        invariant
            i <= linked@.len(),
            p == |d: Id| !pending@.contains_key(d),
            r@ == linked@.subrange(0, i as int).filter(p),
        decreases linked@.len() - i,
    {
        proof {
            reveal(Seq::filter);
            let next = linked@.subrange(0, i + 1);
            assert(next.drop_last() =~= linked@.subrange(0, i as int));
        }
        let d = linked[i];
        if !pending.contains_key(&d) {
            r.push(d);
        }
        i = i + 1;
    }
    assert(linked@.subrange(0, linked@.len() as int) =~= linked@);
    r
}

/// The same frames to each of `targets`.
pub open spec fn to_each(targets: Seq<Id>, frames: Seq<Seq<u8>>) -> Seq<EffectView> {
    Seq::new(targets.len(), |i: int| EffectView::SendFrames { to: targets[i], frames })
}

fn push_to_each(out: &mut Vec<Effect>, targets: &Vec<Id>, frames: &Vec<Vec<u8>>)
    ensures
        views(final(out)@) == views(old(out)@) + to_each(targets@, views(frames@)),
{
    let ghost before = views(out@);
    let ghost all = to_each(targets@, views(frames@));
    let mut i: usize = 0;
    assert(views(out@) =~= before + all.subrange(0, 0));
    while i < targets.len()
        invariant
            i <= targets@.len(),
            all == to_each(targets@, views(frames@)),
            views(out@) == before + all.subrange(0, i as int),
        decreases targets@.len() - i,
    {
        let ghost so_far = views(out@);
        out.push(Effect::SendFrames { to: targets[i], frames: copy_frames(frames) });
        assert(views(out@) =~= so_far.push(all[i as int]));
        i = i + 1;
        assert(views(out@) =~= before + all.subrange(0, i as int));
    }
    assert(all.subrange(0, all.len() as int) =~= all);
}

/// What sending an item's frames on brings about.
pub open spec fn relay_effects(
    linked: Seq<Id>,
    pending: Map<Id, PendingView>,
    source: Id,
    origin: Id,
    frames: Seq<Seq<u8>>,
) -> Seq<EffectView> {
    if frames.len() == 0 {
        Seq::empty()
    } else {
        to_each(relay_targets(linked, pending, source, origin), frames)
    }
}

/// The items in flight after one was sent on.
pub open spec fn relay_inflight(
    inflight: Map<Id, InflightView>,
    linked: Seq<Id>,
    pending: Map<Id, PendingView>,
    source: Id,
    origin: Id,
    hash: Id,
    frames: Seq<Seq<u8>>,
    now: u64,
) -> Map<Id, InflightView> {
    let targets = relay_targets(linked, pending, source, origin);
    if frames.len() == 0 || targets.len() == 0 {
        inflight
    } else {
        after_sending(inflight, hash, targets.to_set(), frames, now)
    }
}

/// Sends an item's frames on to the other linked peers, and keeps them until each
/// of those has acknowledged the item.
pub fn forward_frames(
    inflight: &mut IdMap<Inflight>,
    linked: &Vec<Id>,
    pending: &IdMap<PendingPair>,
    source: Id,
    origin: Id,
    hash: Id,
    frames: Vec<Vec<u8>>,
    now: u64,
) -> (out: Vec<Effect>)
    ensures
        ({
            let targets = relay_targets(linked@, pending@, source, origin);
            if targets.len() == 0 || frames@.len() == 0 {
                &&& final(inflight)@ == old(inflight)@
                &&& out@.len() == 0
            } else {
                &&& final(inflight)@ == after_sending(
                    old(inflight)@,
                    hash,
                    targets.to_set(),
                    views(frames@),
                    now,
                )
                &&& views(out@) == to_each(targets, views(frames@))
            }
        }),
        views(out@) == relay_effects(linked@, pending@, source, origin, views(frames@)),
        final(inflight)@ == relay_inflight(
            old(inflight)@,
            linked@,
            pending@,
            source,
            origin,
            hash,
            views(frames@),
            now,
        ),
{
    let mut out: Vec<Effect> = Vec::new();
    let targets = relay_list(linked, pending, source, origin);
    assert(views(frames@).len() == frames@.len());
    if targets.len() == 0 || frames.len() == 0 {
        assert(views(out@) =~= relay_effects(linked@, pending@, source, origin, views(frames@)));
        return out;
    }
    push_to_each(&mut out, &targets, &frames);
    assert(views(out@) =~= to_each(targets@, views(frames@)));
    track_sent(inflight, hash, &targets, frames, now);
    out
}

/// What sending an item to the peer that asked for it brings about.
pub open spec fn serve_effects(to: Id, frames: Seq<Seq<u8>>) -> Seq<EffectView> {
    if frames.len() == 0 {
        Seq::empty()
    } else {
        seq![EffectView::SendFrames { to, frames }, EffectView::Count(Metric::ItemResynced)]
    }
}

/// The items in flight after one was sent to the peer that asked for it.
pub open spec fn serve_inflight(
    inflight: Map<Id, InflightView>,
    to: Id,
    hash: Id,
    frames: Seq<Seq<u8>>,
    now: u64,
) -> Map<Id, InflightView> {
    if frames.len() == 0 {
        inflight
    } else {
        after_sending(inflight, hash, set![to], frames, now)
    }
}

/// Sends the frames of an item to the peer that asked for it, keeps them until it
/// has acknowledged the item, and counts it; nothing where there is no frame.
pub fn serve_frames(
    inflight: &mut IdMap<Inflight>,
    to: Id,
    hash: Id,
    frames: Vec<Vec<u8>>,
    now: u64,
) -> (out: Vec<Effect>)
    ensures
        if frames@.len() == 0 {
            &&& final(inflight)@ == old(inflight)@
            &&& out@.len() == 0
        } else {
            &&& final(inflight)@ == after_sending(
                old(inflight)@,
                hash,
                set![to],
                views(frames@),
                now,
            )
            &&& views(out@) == seq![
                EffectView::SendFrames { to, frames: views(frames@) },
                EffectView::Count(Metric::ItemResynced),
            ]
        },
        views(out@) == serve_effects(to, views(frames@)),
        final(inflight)@ == serve_inflight(old(inflight)@, to, hash, views(frames@), now),
{
    let mut out: Vec<Effect> = Vec::new();
    assert(views(frames@).len() == frames@.len());
    if frames.len() == 0 {
        assert(views(out@) =~= serve_effects(to, views(frames@)));
        return out;
    }
    let mut targets: Vec<Id> = Vec::new();
    targets.push(to);
    proof {
        assert(targets@[0] == to);
        assert(targets@.to_set() =~= set![to]);
    }
    out.push(Effect::SendFrames { to, frames: copy_frames(&frames) });
    out.push(Effect::Count(Metric::ItemResynced));
    assert(views(out@) =~= seq![
        EffectView::SendFrames { to, frames: views(frames@) },
        EffectView::Count(Metric::ItemResynced),
    ]);
    track_sent(inflight, hash, &targets, frames, now);
    out
}

/// Sends an item that came in one frame on to the other linked peers.
pub fn forward_item(
    inflight: &mut IdMap<Inflight>,
    linked: &Vec<Id>,
    pending: &IdMap<PendingPair>,
    source: Id,
    origin: Id,
    hash: Id,
    frame: Vec<u8>,
    now: u64,
) -> (out: Vec<Effect>)
    ensures
        ({
            let targets = relay_targets(linked@, pending@, source, origin);
            if targets.len() == 0 {
                &&& final(inflight)@ == old(inflight)@
                &&& out@.len() == 0
            } else {
                &&& final(inflight)@ == after_sending(
                    old(inflight)@,
                    hash,
                    targets.to_set(),
                    seq![frame@],
                    now,
                )
                &&& views(out@) == to_each(targets, seq![frame@])
            }
        }),
        views(out@) == relay_effects(linked@, pending@, source, origin, seq![frame@]),
        final(inflight)@ == relay_inflight(
            old(inflight)@,
            linked@,
            pending@,
            source,
            origin,
            hash,
            seq![frame@],
            now,
        ),
{
    let mut frames: Vec<Vec<u8>> = Vec::new();
    frames.push(frame);
    assert(views(frames@) =~= seq![frame@]);
    forward_frames(inflight, linked, pending, source, origin, hash, frames, now)
}

/// An item copied here, with its number and its encoded frames.
pub struct Outgoing {
    pub hash: Id,
    pub kind: Kind,
    pub payload: Vec<u8>,
    pub sensitive: bool,
    pub origin: Id,
    pub event_seq: u64,
    pub frames: Vec<Vec<u8>>,
}

/// What is kept of an item that goes out.
pub open spec fn outgoing_entry(item: Outgoing, now: u64) -> OutboxView {
    OutboxView {
        payload: item.payload@,
        kind: item.kind,
        origin: item.origin,
        seq: item.event_seq,
        created: now,
    }
}

/// What sending an item copied here brings about. Without a linked peer nothing
/// is sent and nothing kept; sensitive items are never kept.
pub open spec fn fan_out_effects(
    linked: Seq<Id>,
    pending: Map<Id, PendingView>,
    item: Outgoing,
    now: u64,
) -> Seq<EffectView> {
    if item.frames@.len() == 0 || linked.len() == 0 {
        Seq::empty()
    } else {
        let keep = if item.sensitive {
            Seq::empty()
        } else {
            seq![EffectView::AdmitToOutbox { hash: item.hash, entry: outgoing_entry(item, now) }]
        };
        keep + seq![EffectView::Count(Metric::ItemSent)] + to_each(
            send_targets(linked, pending),
            views(item.frames@),
        )
    }
}

/// The items in flight after one was sent.
pub open spec fn fan_out_inflight(
    inflight: Map<Id, InflightView>,
    linked: Seq<Id>,
    pending: Map<Id, PendingView>,
    item: Outgoing,
    now: u64,
) -> Map<Id, InflightView> {
    let targets = send_targets(linked, pending);
    if item.frames@.len() == 0 || targets.len() == 0 {
        inflight
    } else {
        after_sending(inflight, item.hash, targets.to_set(), views(item.frames@), now)
    }
}

/// Sends an item that was copied here to every linked peer that is not waiting
/// for confirmation, and keeps its frames until each has acknowledged it.
pub fn fan_out(
    inflight: &mut IdMap<Inflight>,
    linked: &Vec<Id>,
    pending: &IdMap<PendingPair>,
    item: Outgoing,
    now: u64,
) -> (out: Vec<Effect>)
    ensures
        views(out@) == fan_out_effects(linked@, pending@, item, now),
        final(inflight)@ == fan_out_inflight(old(inflight)@, linked@, pending@, item, now),
{
    let mut out: Vec<Effect> = Vec::new();
    if item.frames.len() == 0 || linked.len() == 0 {
        proof {
            assert(views(out@) =~= Seq::empty());
            if linked@.len() == 0 {
                reveal(Seq::filter);
                assert(send_targets(linked@, pending@).len() == 0);
            }
        }
        return out;
    }
    if !item.sensitive {
        out.push(
            Effect::AdmitToOutbox {
                hash: item.hash,
                entry: OutboxEntry {
                    payload: copy_bytes(item.payload.as_slice()),
                    kind: item.kind,
                    origin: item.origin,
                    seq: item.event_seq,
                    created: now,
                },
            },
        );
    }
    out.push(Effect::Count(Metric::ItemSent));
    let targets = send_list(linked, pending);
    push_to_each(&mut out, &targets, &item.frames);
    assert(views(out@) =~= fan_out_effects(linked@, pending@, item, now));
    if targets.len() > 0 {
        track_sent(inflight, item.hash, &targets, item.frames, now);
    }
    out
}

/// No peer that waits for confirmation is ever sent an item copied here or sent
/// on, nor waited for.
pub proof fn pending_peer_is_no_target(
    linked: Seq<Id>,
    pending: Map<Id, PendingView>,
    source: Id,
    origin: Id,
    peer: Id,
)
    requires
        pending.contains_key(peer),
    ensures
        !send_targets(linked, pending).contains(peer),
        !relay_targets(linked, pending, source, origin).contains(peer),
{
    let p = |d: Id| !pending.contains_key(d);
    let q = relay_rule(pending, source, origin);
    lemma_filter_only(linked, p);
    lemma_filter_only(linked, q);
    if linked.filter(p).contains(peer) {
        assert(p(peer));
    }
    if linked.filter(q).contains(peer) {
        assert(q(peer));
    }
}

/// An item is never sent back to the peer it came from, nor to its origin.
pub proof fn relay_does_not_loop_back(
    linked: Seq<Id>,
    pending: Map<Id, PendingView>,
    source: Id,
    origin: Id,
)
    ensures
        !relay_targets(linked, pending, source, origin).contains(source),
        !relay_targets(linked, pending, source, origin).contains(origin),
{
    let q = relay_rule(pending, source, origin);
    lemma_filter_only(linked, q);
    if linked.filter(q).contains(source) {
        assert(q(source));
    }
    if linked.filter(q).contains(origin) {
        assert(q(origin));
    }
}

proof fn lemma_filter_only(s: Seq<Id>, p: spec_fn(Id) -> bool)
    ensures
        forall|x: Id| #[trigger] s.filter(p).contains(x) ==> p(x),
    decreases s.len(),
{
    reveal(Seq::filter);
    if s.len() > 0 {
        lemma_filter_only(s.drop_last(), p);
        let rest = s.drop_last().filter(p);
        assert forall|x: Id| #[trigger] s.filter(p).contains(x) implies p(x) by {
            let i = s.filter(p).index_of(x);
            if i < rest.len() {
                assert(rest[i] == x);
                assert(rest.contains(x));
            }
        }
    }
}

/// While the primary waits for confirmation, no item goes out.
pub open spec fn gated(primary: Option<Id>, pending: Map<Id, PendingView>) -> bool {
    primary matches Some(p) && pending.contains_key(p)
}

/// Not the sending of an item.
pub open spec fn not_a_sending(a: ActionView) -> bool {
    !(a is SendItem)
}

/// What is left to do of `actions` while it is `gated`.
pub open spec fn let_through(
    actions: Seq<ActionView>,
    primary: Option<Id>,
    pending: Map<Id, PendingView>,
) -> Seq<ActionView> {
    if gated(primary, pending) {
        actions.filter(|a: ActionView| not_a_sending(a))
    } else {
        actions
    }
}

/// Takes the sending of items out of what is to be done while the primary waits
/// for confirmation.
pub fn gate_outbound(actions: Vec<Action>, primary: Option<Id>, pending: &IdMap<PendingPair>) -> (r: Vec<
    Action,
>)
    ensures
        views(r@) == let_through(views(actions@), primary, pending@),
{
    let is_gated = match primary {
        Some(p) => pending.contains_key(&p),
        None => false,
    };
    if !is_gated {
        return actions;
    }
    let ghost all = views(actions@);
    let ghost p = |a: ActionView| not_a_sending(a);
    let mut rest = actions;
    let mut out: Vec<Action> = Vec::new();
    let ghost mut i: int = 0;
    proof {
        reveal(Seq::filter);
        assert(all.subrange(0, 0) =~= Seq::empty());
        assert(views(out@) =~= all.subrange(0, 0).filter(p));
        assert(views(rest@) =~= all.skip(0));
    }
    while rest.len() > 0
        invariant
            0 <= i <= all.len(),
            p == |a: ActionView| not_a_sending(a),
            views(rest@) == all.skip(i),
            views(out@) == all.subrange(0, i).filter(p),
        decreases rest@.len(),
    {
        let ghost before = views(out@);
        assert(views(rest@).len() == rest@.len());
        let a = take_first(&mut rest);
        proof {
            reveal(Seq::filter);
            assert(all[i] == a@);
            let next = all.subrange(0, i + 1);
            assert(next.drop_last() =~= all.subrange(0, i));
            assert(next.last() == a@);
            assert(all.skip(i).skip(1) =~= all.skip(i + 1));
        }
        let sends = match &a {
            Action::SendItem { .. } => true,
            _ => false,
        };
        if !sends {
            out.push(a);
            assert(views(out@) =~= before.push(a@));
        }
        proof {
            i = i + 1;
        }
    }
    proof {
        assert(views(rest@).len() == 0);
        assert(all.subrange(0, i) =~= all);
    }
    out
}

/// Hashes of the last items that the daemon put on the clipboard itself.
pub const WRITTEN_CAP: usize = 10;

/// The clipboard's side of the daemon.
pub struct Desk {
    /// Hashes of what the daemon put on the clipboard, oldest first.
    pub written: Vec<Id>,
    pub images: ImageCache,
}

/// View of a [`Desk`].
#[verifier::ext_equal]
pub ghost struct DeskView {
    pub written: Seq<Id>,
    pub images: Seq<(Seq<char>, Seq<u8>)>,
}

impl View for Desk {
    type V = DeskView;

    open spec fn view(&self) -> DeskView {
        DeskView { written: self.written@, images: self.images@ }
    }
}

/// The last [`WRITTEN_CAP`] hashes after one more.
pub open spec fn remembered(written: Seq<Id>, hash: Id) -> Seq<Id> {
    let all = written.push(hash);
    if all.len() > WRITTEN_CAP {
        all.skip(1)
    } else {
        all
    }
}

fn remember_written(written: &mut Vec<Id>, hash: Id)
    ensures
        final(written)@ == remembered(old(written)@, hash),
{
    let ghost all = written@.push(hash);
    written.push(hash);
    if written.len() > WRITTEN_CAP {
        let _ = written.remove(0);
        assert(written@ =~= all.skip(1));
    }
}

/// What the daemon knows of itself when it carries out what is to be done.
pub struct Outlook {
    pub linked: Vec<Id>,
    pub primary: Option<Id>,
    /// This device's name, platform and capabilities, for its hello.
    pub own_name: String,
    pub own_platform: String,
    pub own_caps: Vec<String>,
    /// Most bytes of an item.
    pub max_payload: usize,
    /// The daemon writes the system's clipboard itself; where it cannot, images
    /// are kept for the client to fetch.
    pub os_clipboard: bool,
}

/// The images after one more is kept.
pub open spec fn images_with(
    images: Seq<(Seq<char>, Seq<u8>)>,
    key: Seq<char>,
    png: Seq<u8>,
) -> Seq<(Seq<char>, Seq<u8>)> {
    if is_cached(images, key) {
        images
    } else {
        newest(images.push((key, png)))
    }
}

/// The clipboard's side after an image with the hash `hash` was written: it is kept
/// for clients to fetch, unless it is sensitive.
pub open spec fn image_desk(
    d: DeskView,
    os_clipboard: bool,
    hash: Id,
    png: Seq<u8>,
    sensitive: bool,
) -> DeskView {
    DeskView {
        written: if os_clipboard {
            remembered(d.written, hash)
        } else {
            d.written
        },
        images: if sensitive {
            d.images
        } else {
            images_with(d.images, hex_text(hash@), png)
        },
    }
}

/// Notes that an image with the hash `hash` is written.
pub fn note_image(desk: &mut Desk, os_clipboard: bool, hash: Id, png: &[u8], sensitive: bool)
    ensures
        final(desk)@ == image_desk(old(desk)@, os_clipboard, hash, png@, sensitive),
{
    let ghost d = desk@;
    if os_clipboard {
        remember_written(&mut desk.written, hash);
    }
    if !sensitive {
        let key = hex_encode_bytes(hash.as_slice());
        desk.images.cache_image(key, copy_bytes(png));
    }
    assert(desk@ =~= image_desk(d, os_clipboard, hash, png@, sensitive));
}

/// The clipboard's side after an item was written. The hash of what is written is
/// remembered in the form in which it will be read back; sensitive images are
/// not kept.
pub open spec fn written_desk(
    d: DeskView,
    os_clipboard: bool,
    kind: Kind,
    payload: Seq<u8>,
    sensitive: bool,
) -> DeskView {
    match kind {
        Kind::Image => match png_pixels(payload) {
            Some((w, h, rgba)) => image_desk(
                d,
                os_clipboard,
                image_hash(w, h, rgba),
                payload,
                sensitive,
            ),
            None => d,
        },
        _ => DeskView {
            written: remembered(d.written, text_hash(shown_text(payload))),
            ..d
        },
    }
}

/// What writing an item to the clipboard brings about.
pub open spec fn write_effects(os_clipboard: bool, kind: Kind, payload: Seq<u8>) -> Seq<EffectView> {
    let put = if !os_clipboard {
        Seq::empty()
    } else {
        match kind {
            Kind::Image => match png_pixels(payload) {
                Some((width, height, rgba)) => seq![EffectView::SetImage { width, height, rgba }],
                None => Seq::empty(),
            },
            _ => seq![EffectView::SetText { text: shown_text(payload) }],
        }
    };
    seq![EffectView::Count(Metric::ItemReceived)] + put
}

fn write_clipboard(
    desk: &mut Desk,
    os_clipboard: bool,
    kind: Kind,
    payload: Vec<u8>,
    sensitive: bool,
    out: &mut Vec<Effect>,
)
    ensures
        final(desk)@ == written_desk(old(desk)@, os_clipboard, kind, payload@, sensitive),
        views(final(out)@) == views(old(out)@) + write_effects(os_clipboard, kind, payload@),
{
    let ghost d = desk@;
    let ghost before = views(out@);
    out.push(Effect::Count(Metric::ItemReceived));
    match kind {
        Kind::Image => {
            if let Some((width, height, rgba)) = decode_png_to_rgba(payload.as_slice()) {
                let hash = image_rgba_hash(width, height, rgba.as_slice());
                note_image(desk, os_clipboard, hash, payload.as_slice(), sensitive);
                if os_clipboard {
                    out.push(Effect::SetImage { width, height, rgba });
                }
            }
        },
        _ => {
            let text = text_of(payload.as_slice());
            let hash = clipboard_dedup_hash(text.as_str());
            remember_written(&mut desk.written, hash);
            if os_clipboard {
                out.push(Effect::SetText { text });
            }
        },
    }
    assert(desk@ =~= written_desk(d, os_clipboard, kind, payload@, sensitive));
    assert(views(out@) =~= before + write_effects(os_clipboard, kind, payload@));
}

/// What carrying out one action brings about.
pub open spec fn action_effects(
    c: Outlook,
    meta: Map<Id, PeerMetaView>,
    a: ActionView,
) -> Seq<EffectView> {
    match a {
        ActionView::EmitState => seq![
            EffectView::PublishState {
                peers: Seq::new(c.linked@.len(), |i: int| info_of(meta, c.primary, c.linked@[i])),
            },
        ],
        ActionView::EmitLog { level, text } => seq![EffectView::Log { level, text }],
        ActionView::SendItem { hash, kind, payload, sensitive } => if payload.len() > c.max_payload {
            Seq::empty()
        } else {
            seq![EffectView::FanOut { hash, kind, payload, sensitive }]
        },
        ActionView::DuplicateDropped => seq![EffectView::Count(Metric::DedupDrop)],
        ActionView::ResyncApplySuppressed => seq![EffectView::Count(Metric::ResyncApplySuppressed)],
        ActionView::WriteClipboard { kind, payload, sensitive } => write_effects(
            c.os_clipboard,
            kind,
            payload,
        ),
        ActionView::OpenSession => seq![
            EffectView::SendPrimary {
                msg: MsgView::Hello(
                    HelloView {
                        name: c.own_name@,
                        platform: c.own_platform@,
                        caps: views(c.own_caps@),
                    },
                ),
            },
        ],
        ActionView::CloseSession => farewell(),
        ActionView::DropPeer => farewell(),
        ActionView::SendBattery { level, charging } => seq![
            EffectView::SendPrimary { msg: MsgView::BatteryStatus { level, charging } },
        ],
        ActionView::SendHandshake => seq![EffectView::Count(Metric::HandshakeStart)],
        _ => Seq::empty(),
    }
}

/// The primary is told goodbye before its session ends.
pub open spec fn farewell() -> Seq<EffectView> {
    seq![EffectView::SendPrimary { msg: MsgView::Bye }, EffectView::DropPrimary]
}

/// The clipboard's side after one action.
pub open spec fn action_desk(d: DeskView, c: Outlook, a: ActionView) -> DeskView {
    match a {
        ActionView::WriteClipboard { kind, payload, sensitive } => written_desk(
            d,
            c.os_clipboard,
            kind,
            payload,
            sensitive,
        ),
        _ => d,
    }
}

/// What carrying out `actions` in order brings about.
pub open spec fn all_effects(
    c: Outlook,
    meta: Map<Id, PeerMetaView>,
    actions: Seq<ActionView>,
) -> Seq<EffectView>
    decreases actions.len(),
{
    if actions.len() == 0 {
        Seq::empty()
    } else {
        all_effects(c, meta, actions.drop_last()) + action_effects(c, meta, actions.last())
    }
}

/// The clipboard's side after `actions` in order.
pub open spec fn all_desk(d: DeskView, c: Outlook, actions: Seq<ActionView>) -> DeskView
    decreases actions.len(),
{
    if actions.len() == 0 {
        d
    } else {
        action_desk(all_desk(d, c, actions.drop_last()), c, actions.last())
    }
}

#[verifier::rlimit(40)]
fn carry_out(desk: &mut Desk, ctx: &Outlook, meta: &IdMap<PeerMeta>, a: Action, out: &mut Vec<Effect>)
    ensures
        final(desk)@ == action_desk(old(desk)@, *ctx, a@),
        views(final(out)@) == views(old(out)@) + action_effects(*ctx, meta@, a@),
{
    let ghost before = views(out@);
    match a {
        Action::EmitState => {
            let peers = build_peers(&ctx.linked, meta, ctx.primary);
            out.push(Effect::PublishState { peers });
        },
        Action::EmitLog { level, text } => {
            out.push(Effect::Log { level, text });
        },
        Action::SendItem { hash, kind, payload, sensitive } => {
            if payload.len() <= ctx.max_payload {
                out.push(Effect::FanOut { hash, kind, payload, sensitive });
            }
        },
        Action::AckItem { .. } => {},
        Action::DuplicateDropped => {
            out.push(Effect::Count(Metric::DedupDrop));
        },
        Action::ResyncApplySuppressed => {
            out.push(Effect::Count(Metric::ResyncApplySuppressed));
        },
        Action::PendingDropped { .. } => {},
        Action::WriteClipboard { kind, payload, sensitive } => {
            write_clipboard(desk, ctx.os_clipboard, kind, payload, sensitive, out);
        },
        Action::OpenSession => {
            let hello = Hello {
                name: ctx.own_name.clone(),
                platform: ctx.own_platform.clone(),
                caps: copy_texts(&ctx.own_caps),
            };
            out.push(Effect::SendPrimary { msg: Msg::Hello(hello) });
        },
        Action::CloseSession => {
            out.push(Effect::SendPrimary { msg: Msg::Bye });
            out.push(Effect::DropPrimary);
        },
        Action::SendBattery { level, charging } => {
            out.push(Effect::SendPrimary { msg: Msg::BatteryStatus { level, charging } });
        },
        Action::DropPeer => {
            out.push(Effect::SendPrimary { msg: Msg::Bye });
            out.push(Effect::DropPrimary);
        },
        Action::SendHandshake => {
            out.push(Effect::Count(Metric::HandshakeStart));
        },
        Action::StartDiscovery => {},
        Action::StopDiscovery => {},
        Action::BurstReplay => {},
    }
    assert(views(out@) =~= before + action_effects(*ctx, meta@, a@));
}

/// Carries out what the state machine wants done, in order.
pub fn dispatch(desk: &mut Desk, ctx: &Outlook, meta: &IdMap<PeerMeta>, actions: Vec<Action>) -> (out:
    Vec<Effect>)
    ensures
        final(desk)@ == all_desk(old(desk)@, *ctx, views(actions@)),
        views(out@) == all_effects(*ctx, meta@, views(actions@)),
{
    let ghost d = desk@;
    let ghost all = views(actions@);
    let mut rest = actions;
    let mut out: Vec<Effect> = Vec::new();
    let ghost mut i: int = 0;
    proof {
        assert(all.subrange(0, 0) =~= Seq::empty());
        assert(views(out@) =~= all_effects(*ctx, meta@, all.subrange(0, 0)));
        assert(views(rest@) =~= all.skip(0));
    }
    while rest.len() > 0
        invariant
            0 <= i <= all.len(),
            views(rest@) == all.skip(i),
            desk@ == all_desk(d, *ctx, all.subrange(0, i)),
            views(out@) == all_effects(*ctx, meta@, all.subrange(0, i)),
        decreases rest@.len(),
    {
        assert(views(rest@).len() == rest@.len());
        let a = take_first(&mut rest);
        proof {
            assert(all[i] == a@);
            let next = all.subrange(0, i + 1);
            assert(next.drop_last() =~= all.subrange(0, i));
            assert(next.last() == a@);
            assert(all.skip(i).skip(1) =~= all.skip(i + 1));
        }
        carry_out(desk, ctx, meta, a, &mut out);
        proof {
            i = i + 1;
        }
    }
    proof {
        assert(views(rest@).len() == 0);
        assert(all.subrange(0, i) =~= all);
    }
    out
}

/// While the primary waits for confirmation, nothing that goes out carries an item.
pub proof fn gate_lets_no_item_out(
    c: Outlook,
    meta: Map<Id, PeerMetaView>,
    actions: Seq<ActionView>,
    primary: Option<Id>,
    pending: Map<Id, PendingView>,
)
    requires
        gated(primary, pending),
    ensures
        ({
            let out = all_effects(c, meta, let_through(actions, primary, pending));
            forall|i: int| 0 <= i < out.len() ==> !((#[trigger] out[i]) is FanOut)
        }),
    decreases actions.len(),
{
    reveal(Seq::filter);
    let p = |a: ActionView| not_a_sending(a);
    if actions.len() > 0 {
        gate_lets_no_item_out(c, meta, actions.drop_last(), primary, pending);
        let rest = actions.drop_last().filter(p);
        if p(actions.last()) {
            assert(actions.filter(p) =~= rest.push(actions.last()));
            assert(actions.filter(p).drop_last() =~= rest);
        } else {
            assert(actions.filter(p) =~= rest);
        }
    }
}

/// What the daemon writes to the clipboard it recognises when it reads it back:
/// the hash of what was written last is remembered.
pub proof fn own_write_is_recognised(d: DeskView, kind: Kind, payload: Seq<u8>, sensitive: bool)
    ensures
        kind != Kind::Image ==> written_desk(d, true, kind, payload, sensitive).written.contains(
            text_hash(shown_text(payload)),
        ),
        kind == Kind::Image && png_pixels(payload) is Some ==> ({
            let (w, h, rgba) = png_pixels(payload)->0;
            written_desk(d, true, kind, payload, sensitive).written.contains(image_hash(w, h, rgba))
        }),
        kind == Kind::Image && sensitive ==> written_desk(d, true, kind, payload, sensitive).images
            == d.images,
{
    let after = written_desk(d, true, kind, payload, sensitive).written;
    if kind != Kind::Image {
        assert(after[after.len() - 1] == text_hash(shown_text(payload)));
    } else if png_pixels(payload) is Some {
        let (w, h, rgba) = png_pixels(payload)->0;
        assert(after[after.len() - 1] == image_hash(w, h, rgba));
    }
}

/// The name under which this device's platform is told to peers.
pub fn self_platform(os: &str) -> (r: &'static str)
    ensures
        r@ == if os@ == "android"@ || os@ == "ios"@ || os@ == "macos"@ || os@ == "windows"@ || os@
            == "linux"@ {
            os@
        } else {
            "unknown"@
        },
{
    if same_text(os, "android") {
        "android"
    } else if same_text(os, "ios") {
        "ios"
    } else if same_text(os, "macos") {
        "macos"
    } else if same_text(os, "windows") {
        "windows"
    } else if same_text(os, "linux") {
        "linux"
    } else {
        "unknown"
    }
}

/// However much is written to the clipboard, what is remembered of it stays within
/// its caps.
pub proof fn writing_stays_within_caps(
    d: DeskView,
    os_clipboard: bool,
    kind: Kind,
    payload: Seq<u8>,
    sensitive: bool,
)
    requires
        d.written.len() <= WRITTEN_CAP,
        d.images.len() <= IMAGE_CACHE_CAP,
    ensures
        written_desk(d, os_clipboard, kind, payload, sensitive).written.len() <= WRITTEN_CAP,
        written_desk(d, os_clipboard, kind, payload, sensitive).images.len() <= IMAGE_CACHE_CAP,
{
}

/// An item copied here goes out, whole, to exactly the linked peers that do not wait
/// for confirmation, and is in flight until each of them has acknowledged it. Unless
/// it is sensitive it is kept for those that missed it.
pub proof fn copied_item_goes_to_every_confirmed_peer(
    inflight: Map<Id, InflightView>,
    linked: Seq<Id>,
    pending: Map<Id, PendingView>,
    item: Outgoing,
    now: u64,
    d: Id,
)
    requires
        item.frames@.len() > 0,
    ensures
        ({
            let out = fan_out_effects(linked, pending, item, now);
            let after = fan_out_inflight(inflight, linked, pending, item, now);
            let target = linked.contains(d) && !pending.contains_key(d);
            let waited = inflight.contains_key(item.hash) && inflight[item.hash].pending_peers.contains(
                d,
            );
            &&& out.contains(EffectView::SendFrames { to: d, frames: views(item.frames@) }) == target
            &&& forall|i: int|
                0 <= i < out.len() ==> (#[trigger] out[i] matches EffectView::SendFrames { frames, .. }
                    ==> frames == views(item.frames@))
            &&& (after.contains_key(item.hash) && after[item.hash].pending_peers.contains(d)) == (target
                || waited)
            &&& target ==> after[item.hash].frames == views(item.frames@) && after[item.hash].last_sent
                == now
            &&& forall|h: Id|
                h != item.hash ==> (#[trigger] after.contains_key(h) == inflight.contains_key(h)) && (
                inflight.contains_key(h) ==> after[h] == inflight[h])
            &&& linked.len() > 0 && !item.sensitive ==> out.contains(
                EffectView::AdmitToOutbox {
                    hash: item.hash,
                    entry: OutboxView {
                        payload: item.payload@,
                        kind: item.kind,
                        origin: item.origin,
                        seq: item.event_seq,
                        created: now,
                    },
                },
            )
            &&& item.sensitive ==> forall|i: int|
                0 <= i < out.len() ==> !(#[trigger] out[i] is AdmitToOutbox)
            &&& linked.len() > 0 ==> out.contains(EffectView::Count(Metric::ItemSent))
        }),
{
    let p = |x: Id| !pending.contains_key(x);
    let targets = send_targets(linked, pending);
    let frames = views(item.frames@);
    let out = fan_out_effects(linked, pending, item, now);
    lemma_filter_members(linked, p, d);
    assert(targets.to_set().contains(d) == targets.contains(d));
    let sent = to_each(targets, frames);
    let send = EffectView::SendFrames { to: d, frames };
    if linked.len() > 0 {
        let head = out.len() - sent.len();
        assert(out.skip(head) =~= sent);
        if targets.contains(d) {
            let k = targets.index_of(d);
            assert(sent[k] == send);
            assert(out[head + k] == send);
        }
        if out.contains(send) {
            let j = out.index_of(send);
            assert(j >= head);
            assert(sent[j - head] == send);
            assert(targets[j - head] == d);
        }
        assert(out[head - 1] == EffectView::Count(Metric::ItemSent));
        if !item.sensitive {
            assert(out[0] is AdmitToOutbox);
        }
    } else {
        assert(!linked.contains(d));
    }
}

/// An item that came in goes on, whole, to exactly the linked peers but the one it
/// came from, the one it was copied on, and those that wait for confirmation; and
/// is in flight until each of them has acknowledged it.
pub proof fn received_item_goes_on_to_the_others(
    inflight: Map<Id, InflightView>,
    linked: Seq<Id>,
    pending: Map<Id, PendingView>,
    source: Id,
    origin: Id,
    hash: Id,
    frames: Seq<Seq<u8>>,
    now: u64,
    d: Id,
)
    requires
        frames.len() > 0,
    ensures
        ({
            let out = relay_effects(linked, pending, source, origin, frames);
            let after = relay_inflight(inflight, linked, pending, source, origin, hash, frames, now);
            let target = linked.contains(d) && d != source && d != origin && !pending.contains_key(d);
            let waited = inflight.contains_key(hash) && inflight[hash].pending_peers.contains(d);
            &&& out.contains(EffectView::SendFrames { to: d, frames }) == target
            &&& forall|i: int|
                0 <= i < out.len() ==> (#[trigger] out[i] matches EffectView::SendFrames {
                    frames: f,
                    ..
                } && f == frames)
            &&& (after.contains_key(hash) && after[hash].pending_peers.contains(d)) == (target || waited)
            &&& target ==> after[hash].frames == frames && after[hash].last_sent == now
            &&& forall|h: Id|
                h != hash ==> (#[trigger] after.contains_key(h) == inflight.contains_key(h)) && (
                inflight.contains_key(h) ==> after[h] == inflight[h])
        }),
{
    let targets = relay_targets(linked, pending, source, origin);
    let out = relay_effects(linked, pending, source, origin, frames);
    lemma_filter_members(linked, relay_rule(pending, source, origin), d);
    assert(targets.to_set().contains(d) == targets.contains(d));
    let send = EffectView::SendFrames { to: d, frames };
    if targets.contains(d) {
        assert(out[targets.index_of(d)] == send);
    }
    if out.contains(send) {
        assert(targets[out.index_of(send)] == d);
    }
}

proof fn lemma_filter_members(s: Seq<Id>, p: spec_fn(Id) -> bool, x: Id)
    ensures
        s.filter(p).contains(x) == (s.contains(x) && p(x)),
{
    if s.contains(x) && p(x) {
        s.lemma_filter_contains(p, s.index_of(x));
    }
    if s.filter(p).contains(x) {
        s.lemma_filter_contains_rev(p, x);
        s.lemma_filter_pred(p, s.filter(p).index_of(x));
    }
}

/// What is to be done is done in order: carrying two lists out one after the other
/// is carrying them out as one.
pub proof fn actions_are_carried_out_in_order(
    d: DeskView,
    c: Outlook,
    meta: Map<Id, PeerMetaView>,
    a: Seq<ActionView>,
    b: Seq<ActionView>,
)
    ensures
        all_effects(c, meta, a + b) == all_effects(c, meta, a) + all_effects(c, meta, b),
        all_desk(d, c, a + b) == all_desk(all_desk(d, c, a), c, b),
    decreases b.len(),
{
    if b.len() == 0 {
        assert(a + b =~= a);
        assert(all_effects(c, meta, a) + all_effects(c, meta, b) =~= all_effects(c, meta, a));
    } else {
        let rest = b.drop_last();
        actions_are_carried_out_in_order(d, c, meta, a, rest);
        assert((a + b).drop_last() =~= a + rest);
        assert((a + b).last() == b.last());
        assert(all_effects(c, meta, a + b) =~= all_effects(c, meta, a) + all_effects(c, meta, b));
    }
}

proof fn lemma_one_action(d: DeskView, c: Outlook, meta: Map<Id, PeerMetaView>, a: ActionView)
    ensures
        all_effects(c, meta, seq![a]) == action_effects(c, meta, a),
        all_desk(d, c, seq![a]) == action_desk(d, c, a),
{
    reveal_with_fuel(all_effects, 2);
    reveal_with_fuel(all_desk, 2);
    assert(seq![a].drop_last() =~= Seq::empty());
    assert(all_effects(c, meta, seq![a]) =~= action_effects(c, meta, a));
}

/// A text that came from another device is put on the clipboard as it is, where the
/// daemon writes the clipboard; and its hash is remembered, so that it is not taken
/// for the user's own copy.
pub proof fn received_text_reaches_the_clipboard(
    d: DeskView,
    c: Outlook,
    meta: Map<Id, PeerMetaView>,
    kind: Kind,
    text: Seq<char>,
    sensitive: bool,
)
    requires
        kind != Kind::Image,
    ensures
        ({
            let write = seq![
                ActionView::WriteClipboard { kind, payload: encode_utf8(text), sensitive },
            ];
            let out = all_effects(c, meta, write);
            let after = all_desk(d, c, write);
            &&& out.contains(EffectView::SetText { text }) == c.os_clipboard
            &&& forall|i: int|
                0 <= i < out.len() ==> (#[trigger] out[i] matches EffectView::SetText { text: t } ==> t
                    == text) && !(out[i] is SetImage)
            &&& after.written.len() > 0 && after.written.last() == text_hash(text)
            &&& forall|k: int|
                d.written.len() - 9 <= k && 0 <= k < d.written.len() ==> after.written.contains(
                    #[trigger] d.written[k],
                )
            &&& after.images == d.images
        }),
{
    let a = ActionView::WriteClipboard { kind, payload: encode_utf8(text), sensitive };
    lemma_one_action(d, c, meta, a);
    encoded_text_is_shown(text);
    let out = all_effects(c, meta, seq![a]);
    if c.os_clipboard {
        assert(out[1] == EffectView::SetText { text });
    }
    lemma_remembered(d.written, text_hash(text));
}

/// An image that came from another device is put on the clipboard pixel by pixel,
/// where the daemon writes the clipboard, and its hash is remembered; unless it is
/// sensitive it is kept under its hash for clients to fetch.
pub proof fn received_image_reaches_the_clipboard(
    d: DeskView,
    c: Outlook,
    meta: Map<Id, PeerMetaView>,
    payload: Seq<u8>,
    sensitive: bool,
    width: u32,
    height: u32,
    rgba: Seq<u8>,
)
    requires
        png_pixels(payload) == Some((width, height, rgba)),
    ensures
        ({
            let write = seq![ActionView::WriteClipboard { kind: Kind::Image, payload, sensitive }];
            let out = all_effects(c, meta, write);
            let after = all_desk(d, c, write);
            let hash = image_hash(width, height, rgba);
            &&& out.contains(EffectView::SetImage { width, height, rgba }) == c.os_clipboard
            &&& forall|i: int|
                0 <= i < out.len() ==> (#[trigger] out[i] is SetImage ==> out[i]
                    == EffectView::SetImage { width, height, rgba }) && !(out[i] is SetText)
            &&& c.os_clipboard ==> after.written.len() > 0 && after.written.last() == hash
            &&& !sensitive && !is_cached(d.images, hex_text(hash@)) ==> after.images.len() > 0
                && after.images.last() == (hex_text(hash@), payload)
            &&& !sensitive ==> is_cached(after.images, hex_text(hash@))
            &&& sensitive ==> after.images == d.images
        }),
{
    let a = ActionView::WriteClipboard { kind: Kind::Image, payload, sensitive };
    lemma_one_action(d, c, meta, a);
    let out = all_effects(c, meta, seq![a]);
    let after = all_desk(d, c, seq![a]);
    let hash = image_hash(width, height, rgba);
    if c.os_clipboard {
        assert(out[1] == EffectView::SetImage { width, height, rgba });
    }
    if !sensitive && !is_cached(d.images, hex_text(hash@)) {
        assert(after.images[after.images.len() - 1] == (hex_text(hash@), payload));
    }
}

proof fn lemma_remembered(written: Seq<Id>, hash: Id)
    ensures
        remembered(written, hash).last() == hash,
        forall|k: int|
            written.len() - 9 <= k && 0 <= k < written.len() ==> remembered(written, hash).contains(
                #[trigger] written[k],
            ),
{
    let after = remembered(written, hash);
    assert forall|k: int| written.len() - 9 <= k && 0 <= k < written.len() implies after.contains(
        #[trigger] written[k],
    ) by {
        if written.len() + 1 > WRITTEN_CAP {
            assert(after[k - 1] == written[k]);
        } else {
            assert(after[k] == written[k]);
        }
    }
}

/// An item that is to be sent is sent as it is, unless it is larger than an item may
/// be; then nothing of it is.
pub proof fn item_is_sent_as_it_is(
    d: DeskView,
    c: Outlook,
    meta: Map<Id, PeerMetaView>,
    hash: Id,
    kind: Kind,
    payload: Seq<u8>,
    sensitive: bool,
)
    ensures
        ({
            let send = seq![ActionView::SendItem { hash, kind, payload, sensitive }];
            let out = all_effects(c, meta, send);
            &&& payload.len() <= c.max_payload ==> out == seq![
                EffectView::FanOut { hash, kind, payload, sensitive },
            ]
            &&& payload.len() > c.max_payload ==> out.len() == 0
            &&& all_desk(d, c, send) == d
        }),
{
    lemma_one_action(d, c, meta, ActionView::SendItem { hash, kind, payload, sensitive });
}

/// What this device says to its primary: who it is when a session opens, its battery
/// as it is, and goodbye before the session ends.
pub proof fn primary_is_told(
    d: DeskView,
    c: Outlook,
    meta: Map<Id, PeerMetaView>,
    level: u8,
    charging: bool,
)
    ensures
        all_effects(c, meta, seq![ActionView::OpenSession]) == seq![
            EffectView::SendPrimary {
                msg: MsgView::Hello(
                    HelloView {
                        name: c.own_name@,
                        platform: c.own_platform@,
                        caps: views(c.own_caps@),
                    },
                ),
            },
        ],
        all_effects(c, meta, seq![ActionView::SendBattery { level, charging }]) == seq![
            EffectView::SendPrimary { msg: MsgView::BatteryStatus { level, charging } },
        ],
        all_effects(c, meta, seq![ActionView::CloseSession]) == seq![
            EffectView::SendPrimary { msg: MsgView::Bye },
            EffectView::DropPrimary,
        ],
        all_effects(c, meta, seq![ActionView::DropPeer]) == seq![
            EffectView::SendPrimary { msg: MsgView::Bye },
            EffectView::DropPrimary,
        ],
{
    lemma_one_action(d, c, meta, ActionView::OpenSession);
    lemma_one_action(d, c, meta, ActionView::SendBattery { level, charging });
    lemma_one_action(d, c, meta, ActionView::CloseSession);
    lemma_one_action(d, c, meta, ActionView::DropPeer);
}

/// What clients are told: every linked peer, under its id and with what is known of
/// it, the primary marked as such; and every log line as it is.
pub proof fn clients_are_told(
    d: DeskView,
    c: Outlook,
    meta: Map<Id, PeerMetaView>,
    level: u8,
    text: Seq<char>,
)
    ensures
        ({
            let out = all_effects(c, meta, seq![ActionView::EmitState]);
            &&& out.len() == 1
            &&& out[0] matches EffectView::PublishState { peers } && {
                &&& peers.len() == c.linked@.len()
                &&& forall|i: int|
                    0 <= i < peers.len() ==> {
                        let id = c.linked@[i];
                        &&& (#[trigger] peers[i]).peer_id == id
                        &&& peers[i].primary == (c.primary == Some(id))
                        &&& meta.contains_key(id) ==> peers[i].name == meta[id].name
                            && peers[i].platform == meta[id].platform && peers[i].battery
                            == meta[id].battery && peers[i].charging == meta[id].charging
                            && peers[i].caps == meta[id].caps
                        &&& !meta.contains_key(id) ==> peers[i].name.len() == 0 && peers[i].battery
                            == 255
                    }
            }
        }),
        all_effects(c, meta, seq![ActionView::EmitLog { level, text }]) == seq![
            EffectView::Log { level, text },
        ],
{
    lemma_one_action(d, c, meta, ActionView::EmitState);
    lemma_one_action(d, c, meta, ActionView::EmitLog { level, text });
}

/// While the primary waits for confirmation, everything but the sending of items is
/// still done; otherwise everything is.
pub proof fn gate_spares_what_sends_no_item(
    actions: Seq<ActionView>,
    primary: Option<Id>,
    pending: Map<Id, PendingView>,
    a: ActionView,
)
    ensures
        ({
            let left = let_through(actions, primary, pending);
            if primary is Some && pending.contains_key(primary->0) {
                left.contains(a) == (actions.contains(a) && !(a is SendItem))
            } else {
                left == actions
            }
        }),
{
    let p = |x: ActionView| not_a_sending(x);
    if actions.contains(a) && p(a) {
        actions.lemma_filter_contains(p, actions.index_of(a));
    }
    if actions.filter(p).contains(a) {
        actions.lemma_filter_contains_rev(p, a);
        actions.lemma_filter_pred(p, actions.filter(p).index_of(a));
    }
}

/// A peer that asked for an item is sent all its frames, and nobody else is; the item is
/// in flight until the peer has acknowledged it, and whoever it was in flight to stays so.
pub proof fn requested_item_is_sent(
    inflight: Map<Id, InflightView>,
    to: Id,
    hash: Id,
    frames: Seq<Seq<u8>>,
    now: u64,
    d: Id,
)
    requires
        frames.len() > 0,
    ensures
        ({
            let out = serve_effects(to, frames);
            let after = serve_inflight(inflight, to, hash, frames, now);
            &&& out.contains(EffectView::SendFrames { to: d, frames }) == (d == to)
            &&& out.contains(EffectView::Count(Metric::ItemResynced))
            &&& after.contains_key(hash) && after[hash].frames == frames
            &&& after[hash].pending_peers.contains(d) == (d == to || (inflight.contains_key(hash)
                && inflight[hash].pending_peers.contains(d)))
        }),
        serve_effects(to, Seq::empty()).len() == 0,
        serve_inflight(inflight, to, hash, Seq::empty(), now) == inflight,
{
    let out = serve_effects(to, frames);
    assert(out[0] == EffectView::SendFrames { to, frames });
    assert(out[1] == EffectView::Count(Metric::ItemResynced));
}

} // verus!
