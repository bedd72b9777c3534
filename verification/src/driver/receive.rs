//! What is done with a datagram before anything in it is believed.
use vstd::prelude::*;

use crate::driver::store::{address_changed, new_address};
use crate::net::{ip_of, is_local_ip, local_ip, SocketAddr};

verus! {

/// How often transfers that came to nothing are dropped.
pub const CLEANUP_INTERVAL: u64 = 5_000;

/// What a datagram is by its first byte; `Encrypted` are those that a session
/// opened.
#[derive(Debug, Clone, Copy, PartialEq, Eq, Structural)]
pub enum FrameKind {
    HandshakeInit,
    HandshakeResp,
    Encrypted,
    Other,
}

/// What is done with a datagram.
#[derive(Debug, Clone, Copy, PartialEq, Eq, Structural)]
pub enum Receipt {
    /// Nothing.
    Drop,
    /// Answer the handshake, unless its source sends too many.
    AnswerIfAllowed,
    /// Hand it to the handshake that waits for it.
    HandOver,
    /// Take the message in; with `remember` the sender's address is stored first.
    Deliver { remember: bool },
}

/// What the receiving end knows.
pub struct Ear {
    /// Only local sources count.
    pub lan_only: bool,
    /// Something is stored between runs.
    pub persists: bool,
    /// A handshake of this device waits for its answer.
    pub initiator_waits: bool,
    /// Where the primary is.
    pub current: Option<SocketAddr>,
}

/// What is done with a datagram from `from`.
pub open spec fn receipt(
    ear: Ear,
    remembered: Option<SocketAddr>,
    from: SocketAddr,
    kind: FrameKind,
) -> Receipt {
    if ear.lan_only && !local_ip(ip_of(from)) {
        Receipt::Drop
    } else {
        match kind {
            FrameKind::HandshakeInit => Receipt::AnswerIfAllowed,
            FrameKind::HandshakeResp => if ear.initiator_waits {
                Receipt::HandOver
            } else {
                Receipt::Drop
            },
            FrameKind::Encrypted => Receipt::Deliver {
                remember: ear.persists && new_address(remembered, from, ear.current),
            },
            FrameKind::Other => Receipt::Drop,
        }
    }
}

/// Decides what is done with a datagram. `remembered` is the address that was
/// stored last.
pub fn receive(ear: &Ear, remembered: &mut Option<SocketAddr>, from: SocketAddr, kind: FrameKind) -> (r:
    Receipt)
    ensures
        r == receipt(*ear, *old(remembered), from, kind),
        *final(remembered) == if r == (Receipt::Deliver { remember: true }) {
            Some(from)
        } else {
            *old(remembered)
        },
{
    if ear.lan_only && !is_local_ip(from.ip()) {
        return Receipt::Drop;
    }
    match kind {
        FrameKind::HandshakeInit => Receipt::AnswerIfAllowed,
        FrameKind::HandshakeResp => if ear.initiator_waits {
            Receipt::HandOver
        } else {
            Receipt::Drop
        },
        FrameKind::Encrypted => {
            let remember = ear.persists && address_changed(*remembered, from, ear.current);
            if remember {
                *remembered = Some(from);
            }
            Receipt::Deliver { remember }
        },
        FrameKind::Other => Receipt::Drop,
    }
}

/// Where only the local network counts, nothing from elsewhere gets any further.
pub proof fn strangers_are_not_heard(
    ear: Ear,
    remembered: Option<SocketAddr>,
    from: SocketAddr,
    kind: FrameKind,
)
    requires
        ear.lan_only,
        !local_ip(ip_of(from)),
    ensures
        receipt(ear, remembered, from, kind) == Receipt::Drop,
{
}

/// An address is stored once: the next message from it stores nothing.
pub proof fn address_is_stored_once(ear: Ear, remembered: Option<SocketAddr>, from: SocketAddr)
    requires
        receipt(ear, remembered, from, FrameKind::Encrypted) == (Receipt::Deliver { remember: true }),
    ensures
        receipt(ear, Some(from), from, FrameKind::Encrypted) == (Receipt::Deliver {
            remember: false,
        }),
{
}

/// A datagram from a source that counts is not lost: a handshake is answered, an answer
/// goes to the handshake that waits for it, and a message that a session opened is
/// taken in. Its address is stored where it is the primary's and was not stored last.
pub proof fn datagrams_reach_their_place(
    ear: Ear,
    remembered: Option<SocketAddr>,
    from: SocketAddr,
)
    requires
        !ear.lan_only || local_ip(ip_of(from)),
    ensures
        receipt(ear, remembered, from, FrameKind::HandshakeInit) == Receipt::AnswerIfAllowed,
        ear.initiator_waits ==> receipt(ear, remembered, from, FrameKind::HandshakeResp)
            == Receipt::HandOver,
        !ear.initiator_waits ==> receipt(ear, remembered, from, FrameKind::HandshakeResp)
            == Receipt::Drop,
        receipt(ear, remembered, from, FrameKind::Encrypted) == (Receipt::Deliver {
            remember: ear.persists && ear.current == Some(from) && remembered != Some(from),
        }),
        receipt(ear, remembered, from, FrameKind::Other) == Receipt::Drop,
{
}

} // verus!
