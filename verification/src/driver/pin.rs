//! The watch over the pairing code that is shown on the network.
use vstd::prelude::*;
use vstd::string::*;

use crate::clock::LAST_INSTANT;
use crate::driver::effects::{Effect, EffectView};
use crate::driver::node::{Node, NodeView, PinAd, PinView};
use crate::handshake::{is_window_open, window_open, PAIRING_WINDOW};
use crate::wire::views;

verus! {

/// Until when the code may stand; nothing where none is shown, and the watch ends.
pub fn pin_deadline(node: &Node) -> (r: Option<u64>)
    ensures
        r == match node@.pin {
            Some(p) => Some(p.expires_at),
            None => None::<u64>,
        },
{
    match &node.pin {
        Some(p) => Some(p.expires_at),
        None => None,
    }
}

/// The memory once a code has stood for its time: a new one while strangers may
/// pair, else none.
pub open spec fn turned(n: NodeView, now: u64, fresh_pin: Seq<char>) -> NodeView {
    NodeView {
        pin: if window_open(n.window, now) {
            Some(PinView { pin: fresh_pin, expires_at: (now + PAIRING_WINDOW) as u64 })
        } else {
            None
        },
        ..n
    }
}

/// What is shown on the network then.
pub open spec fn turning(n: NodeView, now: u64, fresh_pin: Seq<char>) -> Seq<EffectView> {
    seq![
        EffectView::PublishPin {
            pin: if window_open(n.window, now) {
                Some(fresh_pin)
            } else {
                None
            },
        },
    ]
}

/// Turns the code once it has stood for its time; says whether the watch goes on.
pub fn turn_pin(node: &mut Node, now: u64, fresh_pin: String) -> (r: (bool, Vec<Effect>))
    requires
        now <= LAST_INSTANT,
    ensures
        r.0 == window_open(old(node)@.window, now),
        final(node)@ == turned(old(node)@, now, fresh_pin@),
        views(r.1@) == turning(old(node)@, now, fresh_pin@),
{
    let ghost n = node@;
    let mut out: Vec<Effect> = Vec::new();
    let open = is_window_open(node.window, now);
    if open {
        out.push(Effect::PublishPin { pin: Some(fresh_pin.clone()) });
        node.pin = Some(PinAd { pin: fresh_pin, expires_at: now + PAIRING_WINDOW });
    } else {
        out.push(Effect::PublishPin { pin: None });
        node.pin = None;
    }
    assert(node@ =~= turned(n, now, fresh_pin@));
    assert(views(out@) =~= turning(n, now, fresh_pin@));
    (open, out)
}

/// Once strangers may no longer pair, no code is left, neither in memory nor on the
/// network; and while a code is left, one watch over it goes on.
pub proof fn no_code_outlives_the_window(n: NodeView, now: u64, fresh_pin: Seq<char>)
    ensures
        !window_open(n.window, now) ==> turned(n, now, fresh_pin).pin is None && turning(
            n,
            now,
            fresh_pin,
        ) == seq![EffectView::PublishPin { pin: None }],
        turned(n, now, fresh_pin).pin is Some == window_open(n.window, now),
{
}

/// While strangers may pair, a code that has stood for its time is replaced by a fresh
/// one, which stands for ninety seconds and is the one shown on the network.
pub proof fn code_is_replaced_while_the_window_is_open(n: NodeView, now: u64, fresh_pin: Seq<char>)
    requires
        n.window is Some,
        now < n.window->0,
        now <= LAST_INSTANT,
    ensures
        turned(n, now, fresh_pin).pin == Some(
            PinView { pin: fresh_pin, expires_at: (now + 90_000) as u64 },
        ),
        turning(n, now, fresh_pin) == seq![EffectView::PublishPin { pin: Some(fresh_pin) }],
        turned(n, now, fresh_pin) == (NodeView { pin: turned(n, now, fresh_pin).pin, ..n }),
{
}

} // verus!
