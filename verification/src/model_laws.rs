//! Laws of the models: what a value stands for is, part by part, what its fields hold
//! under the same names.

use crate::crypto::prf::SessionKeys;
use crate::error::{Failure, IkeError};
use crate::ikev1::isakmp::IsakmpHeader;
use crate::ikev1::phase1::Phase1State;
use crate::ikev2::eap::{EapPacket, Response};
use crate::ikev2::exchange::{CompletedSaInit, LocalSecret, Reply, SaInitResult};
use crate::ikev2::ike_auth::{AssignedConfig, AuthConfig, CertClaim, LocalAuth, PeerAuth, Prover, Verifier};
use crate::ikev2::payload::basic::{Delete, KeyExchange, Nonce, Notify};
use crate::ikev2::payload::cert::Certificate;
use crate::ikev2::payload::config::{Attribute, Configuration};
use crate::ikev2::payload::identity::{Authentication, Identification, Identity};
use crate::ikev2::payload::sa::{Proposal, SecurityAssociation};
use crate::ikev2::payload::ts::{TrafficSelector, TrafficSelectors};
use vstd::prelude::*;

verus! {

/// Each key of an SA is the octets of the field of its name.
pub proof fn law_session_keys_by_name(keys: SessionKeys)
    ensures
        keys@.sk_d == keys.sk_d@,
        keys@.sk_ai == keys.sk_ai@ && keys@.sk_ar == keys.sk_ar@,
        keys@.sk_ei == keys.sk_ei@ && keys@.sk_er == keys.sk_er@,
        keys@.sk_pi == keys.sk_pi@ && keys@.sk_pr == keys.sk_pr@,
{
}

/// An established SA and the secret behind it, by name.
pub proof fn law_sa_by_name(sa: CompletedSaInit, secret: LocalSecret)
    ensures
        sa@.role == sa.role && sa@.suite == sa.suite && sa@.keys == sa.keys@,
        sa@.spi_i == sa.spi_i && sa@.spi_r == sa.spi_r,
        sa@.ni == sa.ni@ && sa@.nr == sa.nr@,
        sa@.init_message == sa.init_message@ && sa@.resp_message == sa.resp_message@,
        sa@.peer_signature_hashes == sa.peer_signature_hashes@,
        sa@.peer_supports_fragmentation == sa.peer_supports_fragmentation,
        secret@.dh_private == secret.dh_private@ && secret@.nonce == secret.nonce@ && secret@.spi == secret.spi,
{
}

/// What a responder made of a request, by variant.
pub proof fn law_reply_by_variant(reply: SaInitResult)
    ensures
        reply is Established ==> reply@ == (Reply::Established {
            response: reply->Established_response@,
            sa: reply->sa@,
        }),
        reply is InvalidKe ==> reply@ == (Reply::InvalidKe {
            response: reply->InvalidKe_response@,
            group: reply->group,
        }),
        reply is CookieRequired ==> reply@ == (Reply::CookieRequired { response: reply->CookieRequired_response@ }),
{
}

/// The payloads of a key exchange, by name.
pub proof fn law_exchange_payloads_by_name(ke: KeyExchange, nonce: Nonce, notify: Notify, delete: Delete)
    ensures
        ke@.dh_group == ke.dh_group && ke@.data == ke.data@,
        nonce@ == nonce.data@,
        notify@.protocol_id == notify.protocol_id && notify@.spi == notify.spi@,
        notify@.notify_type == notify.notify_type && notify@.data == notify.data@,
        delete@.protocol_id == delete.protocol_id && delete@.spis == delete.spis@,
{
}

/// The payloads of an authentication, by name.
pub proof fn law_auth_payloads_by_name(id: Identification, auth: Authentication, cert: Certificate)
    ensures
        id@.id_type == id.id_type && id@.data == id.data@,
        auth@.method == auth.method && auth@.data == auth.data@,
        cert@.encoding == cert.encoding && cert@.data == cert.data@,
{
}

/// A proposal by name, and proposals in their order.
pub proof fn law_proposals_by_name(proposal: Proposal, sa: SecurityAssociation, i: int)
    requires
        0 <= i < sa.proposals@.len(),
    ensures
        proposal@.num == proposal.num && proposal@.protocol_id == proposal.protocol_id,
        proposal@.spi == proposal.spi@ && proposal@.transforms == proposal.transforms@,
        sa@.len() == sa.proposals@.len() && sa@[i] == sa.proposals@[i]@,
{
}

/// A traffic selector by name, and selectors in their order.
pub proof fn law_selectors_by_name(selector: TrafficSelector, all: TrafficSelectors, i: int)
    requires
        0 <= i < all.selectors@.len(),
    ensures
        selector@.ts_type == selector.ts_type && selector@.protocol == selector.protocol,
        selector@.start_port == selector.start_port && selector@.end_port == selector.end_port,
        selector@.start_addr == selector.start_addr@ && selector@.end_addr == selector.end_addr@,
        all@.len() == all.selectors@.len() && all@[i] == all.selectors@[i]@,
{
}

/// A configuration by name, its attributes in their order.
pub proof fn law_configuration_by_name(attribute: Attribute, config: Configuration, i: int)
    requires
        0 <= i < config.attributes@.len(),
    ensures
        attribute@.attr_type == attribute.attr_type && attribute@.value == attribute.value@,
        config@.cfg_type == config.cfg_type,
        config@.attributes.len() == config.attributes@.len() && config@.attributes[i] == config.attributes@[i]@,
{
}

/// EAP packets and the parts of an MS-CHAPv2 response, by name.
pub proof fn law_eap_by_name(packet: EapPacket, response: Response)
    ensures
        packet@.code == packet.code && packet@.identifier == packet.identifier && packet@.data == packet.data@,
        response@.mschap_id == response.mschap_id && response@.name == response.name@,
        response@.peer_challenge == response.peer_challenge@ && response@.nt_response == response.nt_response@,
{
}

/// How the sides of an authentication prove themselves, by variant and by name.
pub proof fn law_auth_config_by_name(config: AuthConfig, claim: CertClaim, assigned: AssignedConfig)
    ensures
        config@.id == config.id@ && config@.local == config.local@ && config@.peer == config.peer@,
        config.local matches LocalAuth::Psk(psk) ==> config@.local == Prover::Psk(psk@),
        config.local is Cert ==> config@.local is Cert && config@.local->auth == config.local->auth@,
        config.peer matches PeerAuth::Psk(psk) ==> config@.peer == Verifier::Psk(psk@),
        config.peer is Cert ==> config@.peer is Cert && config@.peer->ca_hashes == config.peer->ca_hashes@,
        claim@.auth == claim.auth@ && claim@.octets == claim.octets@,
        claim@.certs.len() == claim.certs@.len(),
        forall|i: int| 0 <= i < claim.certs@.len() ==> #[trigger] claim@.certs[i] == claim.certs@[i]@,
        assigned@.ip == assigned.ip@,
        assigned@.dns is Some <==> assigned.dns@.len() > 0,
        assigned@.dns matches Some(first) ==> first == assigned.dns@[0]@,
{
}

/// An ISAKMP header and an ISAKMP SA, by name.
pub proof fn law_isakmp_by_name(header: IsakmpHeader, sa: Phase1State)
    ensures
        header@.init_cookie == header.init_cookie@ && header@.resp_cookie == header.resp_cookie@,
        header@.next_payload == header.next_payload && header@.version == header.version,
        header@.exchange_type == header.exchange_type && header@.flags == header.flags,
        header@.message_id == header.message_id && header@.length == header.length,
        sa@.cky_i == sa.cky_i@ && sa@.cky_r == sa.cky_r@,
        sa@.prf == sa.prf && sa@.cipher == sa.cipher,
        sa@.skeyid_a == sa.skeyid_a@ && sa@.enc_key == sa.enc_key@ && sa@.phase1_iv == sa.phase1_iv@,
{
}

/// Two errors stand for one failure only where they are of one variant: no failure is
/// taken for another.
pub proof fn law_failures_are_told_apart(error: IkeError)
    ensures
        error is Truncated <==> error@ is Truncated,
        error is UnsupportedVersion <==> error@ is UnsupportedVersion,
        error is ShortPayload <==> error@ is ShortPayload,
        error is BadLength <==> error@ is BadLength,
        error is Crypto <==> error@ is Crypto,
        error is MalformedPayload <==> error@ is MalformedPayload,
        error is AuthFailed <==> error@ is AuthFailed,
        error is NoProposalChosen <==> error@ is NoProposalChosen,
        error is PeerRejected <==> error@ is PeerRejected,
        error is InvalidKeGroup <==> error@ is InvalidKeGroup,
        error is CookieRequired <==> error@ is CookieRequired,
        error is MissingPayload <==> error@ is MissingPayload,
        error is DhGroupMismatch <==> error@ is DhGroupMismatch,
        error is BadKeyExchange <==> error@ is BadKeyExchange,
        error is BadIntegrity <==> error@ is BadIntegrity,
        error is UnsupportedCriticalPayload <==> error@ is UnsupportedCriticalPayload,
        error is TsUnacceptable <==> error@ is TsUnacceptable,
        error is TsOutsideOffer <==> error@ is TsOutsideOffer,
        error matches IkeError::Truncated { need, have } ==> error@ == (Failure::Truncated {
            need: need as nat,
            have: have as nat,
        }),
        error matches IkeError::BadLength { declared, available } ==> error@ == (Failure::BadLength {
            declared: declared as nat,
            available: available as nat,
        }),
        error matches IkeError::DhGroupMismatch { expected, got } ==> error@ == (Failure::DhGroupMismatch {
            expected,
            got,
        }),
{
}

/// A domain name is an identity of type 2, by the octets of its text.
pub proof fn law_domain_name(name: Seq<char>)
    ensures
        Identity::fqdn(name) == (Identity { id_type: 2, data: vstd::utf8::encode_utf8(name) }),
{
}

} // verus!
