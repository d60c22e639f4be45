//! MOBIKE (RFC 4555) — surviving IP address changes (e.g. a phone moving between
//! Wi-Fi and cellular) without renegotiating the IKE/CHILD SAs.
//!
//! This is the signalling; the actual socket rebinding and updating the tunnel's
//! peer address is the consumer's job.
//!
//! - `MOBIKE_SUPPORTED` is offered in `IKE_AUTH` to enable MOBIKE.
//! - When a peer's address changes it sends an INFORMATIONAL request with
//!   `UPDATE_SA_ADDRESSES` (RFC 4555 §3.5); the receiver updates the SA's peer
//!   address to that packet's *observed* source and answers.
//!
//! Since the second half is the consumer's, a responder never advertises
//! MOBIKE on its own: a consumer that implements it opts in, and even then the
//! notify is echoed only to an initiator that sent it (RFC 4555 §3.1).

use vstd::prelude::*;

use crate::error::{viewed, IkeError};
use crate::ikev2::exchange::CompletedSaInit;
use crate::ikev2::informational::{build_informational, header_of};
use crate::ikev2::message;
use crate::ikev2::message::{ExchangeType, PayloadType};
use crate::ikev2::payload::basic::Notice;
use crate::ikev2::payload::{notify_type, Notify};

verus! {

/// A notify of this type without data.
pub open spec fn bare_notice(notify_type: u16) -> Notice {
    Notice::status(notify_type, Seq::empty())
}

/// A notify of this type without data.
pub(crate) fn bare_notify(notify_type: u16) -> (notify: Notify)
    ensures
        notify@ == bare_notice(notify_type),
{
    let data: Vec<u8> = Vec::new();
    assert(data@ =~= Seq::<u8>::empty());
    Notify::status(notify_type, data)
}

/// The `MOBIKE_SUPPORTED` notify to include in `IKE_AUTH` to enable MOBIKE.
pub fn mobike_supported() -> (notify: Notify)
    ensures
        notify@ == bare_notice(notify_type::MOBIKE_SUPPORTED),
{
    bare_notify(notify_type::MOBIKE_SUPPORTED)
}

/// Build an INFORMATIONAL request announcing our address changed:
/// `SK { N(UPDATE_SA_ADDRESSES) }`. The receiver updates the SA's peer address to
/// this packet's observed source (RFC 4555 §3.5).
pub fn build_update_sa_addresses(sa: &CompletedSaInit, message_id: u32, iv: &[u8; 8]) -> (out: Result<
    Vec<u8>,
    IkeError,
>)
    requires
        sa@.suite.cipher() is Some,
    ensures
        viewed(out) == sa@.sealed(
            sa@.role,
            header_of(sa@, ExchangeType::Informational, message_id, false),
            seq![(PayloadType::Notify, bare_notice(notify_type::UPDATE_SA_ADDRESSES).octets())],
            iv@,
        ),
{
    let mut inner: Vec<(PayloadType, Vec<u8>)> = Vec::new();
    inner.push((PayloadType::Notify, bare_notify(notify_type::UPDATE_SA_ADDRESSES).to_bytes()));
    assert(message::bodies(inner@) =~= seq![
        (PayloadType::Notify, bare_notice(notify_type::UPDATE_SA_ADDRESSES).octets()),
    ]);
    build_informational(sa, message_id, false, &inner, iv)
}

/// Whether one of `payloads` is a notify of this type.
pub open spec fn notifies(payloads: Seq<(PayloadType, Seq<u8>)>, notify_type: u16) -> bool {
    exists|i: int| 0 <= i < payloads.len() && is_notify(#[trigger] payloads[i], notify_type)
}

/// Whether a payload is a notify of this type.
pub open spec fn is_notify(payload: (PayloadType, Seq<u8>), notify_type: u16) -> bool {
    payload.0 == PayloadType::Notify && match Notice::read(payload.1) {
        Ok(notify) => notify.notify_type == notify_type,
        Err(_) => false,
    }
}

/// Whether a decrypted INFORMATIONAL carries `UPDATE_SA_ADDRESSES` — i.e. the
/// peer moved and we should update its address to the packet's source.
pub fn contains_update_sa_addresses(inner: &[(PayloadType, Vec<u8>)]) -> (moved: bool)
    ensures
        moved == notifies(message::bodies(inner@), notify_type::UPDATE_SA_ADDRESSES),
{
    has_notify(inner, notify_type::UPDATE_SA_ADDRESSES)
}

/// Whether a decrypted message carries a `MOBIKE_SUPPORTED` notify.
pub fn peer_supports_mobike(inner: &[(PayloadType, Vec<u8>)]) -> (supported: bool)
    ensures
        supported == notifies(message::bodies(inner@), notify_type::MOBIKE_SUPPORTED),
{
    has_notify(inner, notify_type::MOBIKE_SUPPORTED)
}

fn has_notify(inner: &[(PayloadType, Vec<u8>)], want: u16) -> (found: bool)
    ensures
        found == notifies(message::bodies(inner@), want),
{
    let ghost all = message::bodies(inner@);
    for i in 0..inner.len()
        invariant
            all == message::bodies(inner@),
            forall|j: int| 0 <= j < i ==> !is_notify(#[trigger] all[j], want),
    {
        assert(all[i as int] == (inner@[i as int].0, inner@[i as int].1@));
        if inner[i].0 == PayloadType::Notify {
            if let Ok(notify) = Notify::parse(&inner[i].1) {
                if notify.notify_type == want {
                    return true;
                }
            }
        }
    }
    false
}

} // verus!
