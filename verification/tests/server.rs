//! The IKEv1 responder, run by a gateway whose key exchange is a stand-in.

use ryke::crypto::block::BlockCipher;
use ryke::crypto::PrfAlgorithm;
use ryke::error::IkeError;
use ryke::ikev1::informational::{
    build_esp_delete, build_isakmp_delete, build_r_u_there, build_r_u_there_ack, parse_notify,
};
use ryke::ikev1::isakmp::{encode_chain, exchange, flags, payload, IsakmpHeader, HEADER_LEN, VERSION_1_0};
use ryke::ikev1::phase1::{phase2_iv, Phase1State};
use ryke::ikev1::phase2::parse_encrypted;
use ryke::ikev1::server::{Phase1, SaLifetime, Server, ServerEvent, Task, Verdict};
use ryke::ikev1::{notify_type, protocol};

const CKY_I: [u8; 8] = [0x11; 8];

/// The SPIs of a CHILD SA, as one end holds them.
#[derive(Debug, Clone, Copy, PartialEq, Eq)]
struct Child {
    inbound: u32,
    outbound: u32,
}

/// What is kept of a Phase 1 half done: the ISAKMP SA it leads to.
struct Half(Phase1State);

fn state(cky_r: [u8; 8]) -> Phase1State {
    Phase1State {
        cky_i: CKY_I,
        cky_r,
        prf: PrfAlgorithm::Sha1,
        skeyid_a: vec![0x33; 20],
        cipher: BlockCipher::Aes256,
        enc_key: vec![0x44; 32],
        phase1_iv: vec![0x55; 16],
    }
}

/// A message of `exchange_type`: its header and `body`.
fn message(exchange_type: u8, cky_r: [u8; 8], message_id: u32, encrypted: bool, body: &[u8]) -> Vec<u8> {
    let header = IsakmpHeader {
        init_cookie: CKY_I,
        resp_cookie: cky_r,
        next_payload: payload::HASH,
        version: VERSION_1_0,
        exchange_type,
        flags: if encrypted { flags::ENCRYPTION } else { 0 },
        message_id,
        length: (HEADER_LEN + body.len()) as u32,
    };
    let mut out = Vec::new();
    header.write(&mut out);
    out.extend_from_slice(body);
    out
}

/// Passes the checks of the stand-in exchanges: a body that says so.
fn passes(data: &[u8]) -> Result<(), IkeError> {
    if data[HEADER_LEN] == b'!' {
        Ok(())
    } else {
        Err(IkeError::AuthFailed)
    }
}

struct Gateway {
    server: Server<Half, Child, Child>,
    draws: u32,
}

impl Gateway {
    fn new() -> Gateway {
        Gateway { server: Server::new(), draws: 0x7000 }
    }

    fn draw(&mut self) -> u32 {
        self.draws += 1;
        self.draws
    }

    /// Take one datagram: what was done, and what was sent back, if anything.
    fn take(&mut self, data: &[u8]) -> (Result<ServerEvent, IkeError>, Option<Vec<u8>>) {
        match self.step(data) {
            Ok((event, reply)) => (Ok(event), reply),
            Err(error) => (Err(error), None),
        }
    }

    fn step(&mut self, data: &[u8]) -> Result<(ServerEvent, Option<Vec<u8>>), IkeError> {
        match self.server.handle_one(data)? {
            Task::Ignore => Ok((ServerEvent::Ignored, None)),
            Task::Resend(answer) => Ok((ServerEvent::Retransmitted, Some(answer))),
            task @ (Task::OpenMain | Task::OpenAggressive) => {
                passes(data)?;
                let mut cky_r = [0; 8];
                cky_r[..4].copy_from_slice(&self.draw().to_be_bytes());
                let (exchange_type, phase1) = if task == Task::OpenMain {
                    (exchange::MAIN, Phase1::MainSaSent(Half(state(cky_r))))
                } else {
                    (exchange::AGGRESSIVE, Phase1::AggressiveSent(Half(state(cky_r))))
                };
                let msg2 = message(exchange_type, cky_r, 0, false, b"two");
                let event = self.server.opened(phase1, data.to_vec(), msg2.clone())?;
                Ok((event, Some(msg2)))
            }
            Task::CompleteKe(at) => {
                passes(data)?;
                let half = Half(self.server.half_open(at).unwrap().0.clone());
                let msg4 = message(exchange::MAIN, half.0.cky_r, 0, false, b"four");
                let event = self.server.continued(at, Phase1::MainKeSent(half), data.to_vec(), Some(msg4.clone()));
                Ok((event, Some(msg4)))
            }
            Task::CompleteId(at) => {
                passes(data)?;
                let st = self.server.half_open(at).unwrap().0.clone();
                let msg6 = message(exchange::MAIN, st.cky_r, 0, true, b"six");
                let event = self.server.continued(at, Phase1::Established(st), data.to_vec(), Some(msg6.clone()));
                Ok((event, Some(msg6)))
            }
            Task::VerifyHash(at) => {
                passes(data)?;
                let st = self.server.half_open(at).unwrap().0.clone();
                Ok((self.server.continued(at, Phase1::Established(st), data.to_vec(), None), None))
            }
            Task::BeginQuick(at) => {
                passes(data)?;
                let header = IsakmpHeader::parse(data)?;
                let ours = self.draw();
                let theirs = u32::from_be_bytes([data[29], data[30], data[31], data[32]]);
                let msg2 = message(exchange::QUICK, header.resp_cookie, header.message_id, true, &ours.to_be_bytes());
                let half = Child { inbound: ours, outbound: theirs };
                let event = self.server.quick_begun(at, header.message_id, data.to_vec(), msg2.clone(), half);
                Ok((event, Some(msg2)))
            }
            Task::CompleteQuick(at) => {
                passes(data)?;
                let child = *self.server.quick_responder(at).unwrap();
                let lifetime = self.server.grant(SaLifetime { seconds: 3600, kilobytes: None });
                Ok((self.server.quick_completed(at, child, (child.inbound, child.outbound), lifetime), None))
            }
            Task::Inform(at) => {
                let verdict = self.server.informational(at, data)?;
                let reply = match verdict {
                    Verdict::Answer(seq) => {
                        let id = self.draw();
                        Some(build_r_u_there_ack(self.server.isakmp_sa(at).unwrap(), id, seq)?)
                    }
                    _ => None,
                };
                Ok((self.server.concluded(at, verdict), reply))
            }
        }
    }

    fn main(&mut self) -> (Vec<u8>, [u8; 8], Vec<u8>) {
        let msg1 = message(exchange::MAIN, [0; 8], 0, false, b"!one");
        let (event, msg2) = self.take(&msg1);
        assert_eq!(event, Ok(ServerEvent::Phase1SaInit));
        let msg2 = msg2.unwrap();
        (msg1, IsakmpHeader::parse(&msg2).unwrap().resp_cookie, msg2)
    }

    fn aggressive_until_message_3(&mut self) -> (Vec<u8>, Phase1State, Vec<u8>) {
        let msg1 = message(exchange::AGGRESSIVE, [0; 8], 0, false, b"!one");
        let (event, msg2) = self.take(&msg1);
        assert_eq!(event, Ok(ServerEvent::Phase1SaInit));
        let cky_r = IsakmpHeader::parse(&msg2.unwrap()).unwrap().resp_cookie;
        (message(exchange::AGGRESSIVE, cky_r, 0, true, b"!three"), state(cky_r), msg1)
    }

    fn aggressive(&mut self) -> Phase1State {
        let (msg3, st, _) = self.aggressive_until_message_3();
        assert_eq!(self.take(&msg3), (Ok(ServerEvent::Phase1Established), None));
        st
    }

    /// A whole Quick Mode; the peer's CHILD SA.
    fn quick(&mut self, st: &Phase1State, message_id: u32, spi: u32) -> Child {
        let (msg1, msg3) = quick_messages(st, message_id, spi);
        let (event, msg2) = self.take(&msg1);
        assert_eq!(event, Ok(ServerEvent::QuickSaInit));
        assert_eq!(self.take(&msg3).0, Ok(ServerEvent::ChildSaEstablished { cky_i: CKY_I }));
        Child { inbound: spi, outbound: granted_spi(&msg2.unwrap()) }
    }
}

/// Quick Mode's messages 1 and 3, whose peer receives on `spi`.
fn quick_messages(st: &Phase1State, message_id: u32, spi: u32) -> (Vec<u8>, Vec<u8>) {
    let body = [&b"!"[..], &spi.to_be_bytes()].concat();
    (message(exchange::QUICK, st.cky_r, message_id, true, &body), message(exchange::QUICK, st.cky_r, message_id, true, b"!three"))
}

/// The SPI a Quick Mode message 2 of the gateway's names.
fn granted_spi(msg2: &[u8]) -> u32 {
    u32::from_be_bytes([msg2[28], msg2[29], msg2[30], msg2[31]])
}

/// `msg` with the octet behind its header changed.
fn spoilt(msg: &[u8]) -> Vec<u8> {
    let mut bad = msg.to_vec();
    bad[HEADER_LEN] ^= 1;
    bad
}

/// The R-U-THERE-ACK sequence number in a reply of the server's.
fn ack_seq(st: &Phase1State, reply: &[u8]) -> u32 {
    let header = IsakmpHeader::parse(reply).unwrap();
    let (_, payloads, _) = parse_encrypted(st, reply, &phase2_iv(st, header.message_id)).unwrap();
    let (_, body) = payloads.iter().find(|(t, _)| *t == payload::NOTIFY).unwrap();
    let (msg_type, data) = parse_notify(body).unwrap();
    assert_eq!(msg_type, notify_type::R_U_THERE_ACK);
    u32::from_be_bytes([data[0], data[1], data[2], data[3]])
}

/// A repeated message 1 gets the same message 2 back, not a second
/// ISAKMP SA; once the exchange moved on, a late one gets nothing.
#[test]
fn a_repeated_message_1_gets_the_same_message_2_and_no_second_sa() {
    let mut gateway = Gateway::new();
    let msg1 = message(exchange::AGGRESSIVE, [0; 8], 0, false, b"!one");
    let (_, msg2) = gateway.take(&msg1);
    assert_eq!(gateway.take(&msg1), (Ok(ServerEvent::Retransmitted), msg2.clone()));
    assert_eq!(gateway.server.session_count(), 1);

    let cky_r = IsakmpHeader::parse(&msg2.unwrap()).unwrap().resp_cookie;
    let msg3 = message(exchange::AGGRESSIVE, cky_r, 0, true, b"!three");
    assert_eq!(gateway.take(&msg3).0, Ok(ServerEvent::Phase1Established));
    assert_eq!(gateway.take(&msg1), (Ok(ServerEvent::Ignored), None));
    assert_eq!(gateway.server.session_count(), 1);
}

/// Main Mode: a repeated message 3 or 5 gets the same message 4 or 6
/// back, and the handshake completes on it as if nothing happened; a
/// late message 1 gets nothing.
#[test]
fn main_mode_repeats_get_the_same_answer() {
    let mut gateway = Gateway::new();
    let (msg1, cky_r, _) = gateway.main();
    let msg3 = message(exchange::MAIN, cky_r, 0, false, b"!three");
    let (_, msg4) = gateway.take(&msg3);
    assert_eq!(gateway.take(&msg3), (Ok(ServerEvent::Retransmitted), msg4));
    assert_eq!(gateway.take(&msg1), (Ok(ServerEvent::Ignored), None));

    let msg5 = message(exchange::MAIN, cky_r, 0, true, b"!five");
    let (event, msg6) = gateway.take(&msg5);
    assert_eq!(event, Ok(ServerEvent::Phase1Established));
    assert_eq!(gateway.take(&msg5), (Ok(ServerEvent::Retransmitted), msg6));

    let st = state(cky_r);
    let child = gateway.quick(&st, 0x1234, 0xAAAA);
    let ours = gateway.server.take_child(st.cky_i).unwrap();
    assert_eq!((ours.inbound, ours.outbound), (child.outbound, child.inbound));
}

/// Main Mode: a message 5 that fails its checks is refused and leaves the
/// handshake waiting for the real one.
#[test]
fn a_bad_main_mode_message_5_does_not_lose_the_handshake() {
    let mut gateway = Gateway::new();
    let (_, cky_r, _) = gateway.main();
    gateway.take(&message(exchange::MAIN, cky_r, 0, false, b"!three")).0.unwrap();
    let msg5 = message(exchange::MAIN, cky_r, 0, true, b"!five");
    let (event, reply) = gateway.take(&spoilt(&msg5));
    assert!(event.is_err());
    assert_eq!(reply, None);
    let (event, msg6) = gateway.take(&msg5);
    assert_eq!(event, Ok(ServerEvent::Phase1Established));
    assert!(msg6.is_some());
}

/// RFC 2409 §5.5: Phase 2 runs under an established ISAKMP SA. Before
/// HASH_I has authenticated the peer, Quick Mode gets nothing, and
/// neither does an Informational.
#[test]
fn quick_mode_waits_for_phase_1_to_authenticate_the_peer() {
    let mut gateway = Gateway::new();
    let (msg3, st, _) = gateway.aggressive_until_message_3();
    let (quick1, _) = quick_messages(&st, 0x1234, 0xAAAA);
    assert_eq!(gateway.take(&quick1), (Ok(ServerEvent::Ignored), None));
    let probe = build_r_u_there(&st, 0x99, 1).unwrap();
    assert_eq!(gateway.take(&probe), (Ok(ServerEvent::Ignored), None));

    assert_eq!(gateway.take(&msg3).0, Ok(ServerEvent::Phase1Established));
    let (event, reply) = gateway.take(&quick1);
    assert_eq!(event, Ok(ServerEvent::QuickSaInit));
    assert!(reply.is_some());
}

/// A repeated Quick-Mode message 1 gets the same message 2, not a fresh
/// exchange mistaken for message 3; a repeated message 3 is dropped.
#[test]
fn a_repeated_quick_mode_message_1_gets_the_same_message_2() {
    let mut gateway = Gateway::new();
    let st = gateway.aggressive();
    let (msg1, msg3) = quick_messages(&st, 0x1234, 0xAAAA);
    let (_, msg2) = gateway.take(&msg1);
    assert_eq!(gateway.take(&msg1), (Ok(ServerEvent::Retransmitted), msg2.clone()));

    assert_eq!(gateway.take(&msg3).0, Ok(ServerEvent::ChildSaEstablished { cky_i: st.cky_i }));
    assert_eq!(gateway.take(&msg3), (Ok(ServerEvent::Ignored), None));
    let ours = gateway.server.take_child(st.cky_i).unwrap();
    assert_eq!((ours.inbound, ours.outbound), (granted_spi(&msg2.unwrap()), 0xAAAA));
}

/// A Quick-Mode message 3 that fails its checks is refused and leaves the
/// exchange waiting for the real one.
#[test]
fn a_bad_quick_mode_message_3_does_not_lose_the_exchange() {
    let mut gateway = Gateway::new();
    let st = gateway.aggressive();
    let (msg1, msg3) = quick_messages(&st, 0x1234, 0xAAAA);
    gateway.take(&msg1).0.unwrap();
    assert!(gateway.take(&spoilt(&msg3)).0.is_err());
    assert_eq!(gateway.take(&msg3).0, Ok(ServerEvent::ChildSaEstablished { cky_i: st.cky_i }));
    assert!(gateway.server.take_child(st.cky_i).is_some());
}

/// A Quick Mode whose exchange is over is never taken again, even
/// replayed with its own Message ID and valid protection.
#[test]
fn a_replayed_quick_mode_of_an_exchange_already_over_is_ignored() {
    let mut gateway = Gateway::new();
    let st = gateway.aggressive();
    let (old, msg3) = quick_messages(&st, 0x1234, 0xAAAA);
    gateway.take(&old).0.unwrap();
    gateway.take(&msg3).0.unwrap();
    let child = gateway.quick(&st, 0x5678, 0xBBBB);

    assert_eq!(gateway.take(&old), (Ok(ServerEvent::Ignored), None));
    let ours = gateway.server.take_child(st.cky_i).unwrap();
    assert_eq!((ours.inbound, ours.outbound), (child.outbound, child.inbound));
}

/// A message naming an ISAKMP SA by the wrong responder cookie is not
/// that SA's.
#[test]
fn a_message_under_the_wrong_responder_cookie_is_ignored() {
    let mut gateway = Gateway::new();
    let st = gateway.aggressive();
    let mut probe = build_r_u_there(&st, 0x99, 7).unwrap();
    probe[8] ^= 1;
    assert_eq!(gateway.take(&probe), (Ok(ServerEvent::Ignored), None));
}

/// An R-U-THERE or a Delete sent under this ISAKMP SA but naming another
/// SA is not about this one (RFC 3706 §6.1, RFC 2408 §3.15).
#[test]
fn a_notify_or_delete_naming_another_sa_is_ignored() {
    let mut gateway = Gateway::new();
    let st = gateway.aggressive();
    let cky_i = st.cky_i;
    let child = gateway.quick(&st, 0x1234, 0xAAAA);
    // Same keys, other cookies in the payload, this SA's in the header.
    let mut other = st.clone();
    other.cky_r[0] ^= 1;
    for build in [build_r_u_there(&other, 0x98, 1), build_isakmp_delete(&other, 0x99)] {
        let mut msg = build.unwrap();
        msg[8..16].copy_from_slice(&st.cky_r);
        assert_eq!(gateway.take(&msg), (Ok(ServerEvent::Ignored), None));
    }
    // The server's own inbound SPI, not the peer's.
    let delete = build_esp_delete(&st, 0x9A, child.outbound).unwrap();
    assert_eq!(gateway.take(&delete).0, Ok(ServerEvent::Ignored));
    assert!(gateway.server.child(cky_i).is_some());
    let probe = build_r_u_there(&st, 0x9B, 1).unwrap();
    assert_eq!(gateway.take(&probe).0, Ok(ServerEvent::DpdAnswered { cky_i }));
}

/// RFC 3706 §5.2 / §6.1: having advertised DPD, the server answers every
/// R-U-THERE with the same sequence number -- a repeat included -- but
/// not one whose number went backwards (§6.2), nor one sent in the clear.
#[test]
fn r_u_there_is_answered_with_its_sequence_number() {
    let mut gateway = Gateway::new();
    let st = gateway.aggressive();
    let cky_i = st.cky_i;
    for (id, seq) in [(1, 100), (2, 100), (3, 101)] {
        let probe = build_r_u_there(&st, id, seq).unwrap();
        let (event, reply) = gateway.take(&probe);
        assert_eq!(event, Ok(ServerEvent::DpdAnswered { cky_i }), "seq {seq}");
        assert_eq!(ack_seq(&st, &reply.expect("an R-U-THERE must be answered")), seq);
    }
    let stale = build_r_u_there(&st, 4, 99).unwrap();
    assert_eq!(gateway.take(&stale), (Ok(ServerEvent::Ignored), None));

    // The same Notify, unencrypted.
    let mut spi_and_seq = [st.cky_i, st.cky_r].concat();
    spi_and_seq.extend_from_slice(&102u32.to_be_bytes());
    let mut body = vec![0, 0, 0, 1, protocol::ISAKMP, 16];
    body.extend_from_slice(&notify_type::R_U_THERE.to_be_bytes());
    body.extend_from_slice(&spi_and_seq);
    let mut clear = message(exchange::INFORMATIONAL, st.cky_r, 0x0102_0304, false, &encode_chain(&[(payload::NOTIFY, body)]));
    clear[16] = payload::NOTIFY;
    assert_eq!(gateway.take(&clear), (Ok(ServerEvent::Ignored), None));
    assert_eq!(flags::ENCRYPTION & clear[19], 0);
}

/// An ESP Delete naming the SPI the peer receives on drops the CHILD SA,
/// whether or not the caller took it, and only once; the ISAKMP SA stays
/// up.
#[test]
fn an_esp_delete_drops_the_child_sa() {
    let mut gateway = Gateway::new();
    let st = gateway.aggressive();
    let cky_i = st.cky_i;
    let child = gateway.quick(&st, 0x1234, 0xAAAA);
    let delete = build_esp_delete(&st, 1, child.inbound).unwrap();
    assert_eq!(gateway.take(&delete).0, Ok(ServerEvent::ChildDeleted { cky_i }));
    assert!(gateway.server.child(cky_i).is_none());

    let child = gateway.quick(&st, 0x5678, 0xBBBB);
    gateway.server.take_child(cky_i).unwrap();
    let delete = build_esp_delete(&st, 2, child.inbound).unwrap();
    assert_eq!(gateway.take(&delete), (Ok(ServerEvent::ChildDeleted { cky_i }), None));
    assert_eq!(gateway.take(&delete).0, Ok(ServerEvent::Ignored));
    let probe = build_r_u_there(&st, 3, 1).unwrap();
    assert_eq!(gateway.take(&probe).0, Ok(ServerEvent::DpdAnswered { cky_i }));
}

/// The lifetime the server grants a CHILD SA is reported for as long as
/// the CHILD SA lasts -- taken by the caller or not -- and not once an ESP
/// Delete has closed it. A limit set with `set_child_volume_limit`
/// applies to the exchanges after it, not to one already over.
#[test]
fn the_server_says_what_it_granted_and_forgets_it_with_the_child_sa() {
    let mut gateway = Gateway::new();
    let st = gateway.aggressive();
    let cky_i = st.cky_i;
    assert_eq!(gateway.server.child_lifetime(cky_i), None, "no CHILD SA yet");

    gateway.server.set_child_volume_limit(Some(100_000));
    let child = gateway.quick(&st, 0x1234, 0xAAAA);
    let limited = SaLifetime { seconds: 3600, kilobytes: Some(100_000) };
    assert_eq!(gateway.server.child_lifetime(cky_i), Some(limited));
    gateway.server.take_child(cky_i).unwrap();
    assert_eq!(gateway.server.child_lifetime(cky_i), Some(limited), "taking the CHILD SA does not end its lifetime");

    gateway.server.set_child_volume_limit(None);
    assert_eq!(gateway.server.child_lifetime(cky_i), Some(limited), "a new limit is not applied to an SA already granted");
    let delete = build_esp_delete(&st, 1, child.inbound).unwrap();
    assert_eq!(gateway.take(&delete).0, Ok(ServerEvent::ChildDeleted { cky_i }));
    assert_eq!(gateway.server.child_lifetime(cky_i), None);

    gateway.quick(&st, 0x5678, 0xBBBB);
    let unlimited = SaLifetime { seconds: 3600, kilobytes: None };
    assert_eq!(gateway.server.child_lifetime(cky_i), Some(unlimited));
    assert_eq!(gateway.server.child_lifetime([0xEE; 8]), None, "another ISAKMP SA's");
}

/// An ISAKMP Delete closes the ISAKMP SA with its CHILD SA; nothing is
/// answered under it afterwards.
#[test]
fn an_isakmp_delete_closes_the_sa() {
    let mut gateway = Gateway::new();
    let st = gateway.aggressive();
    let cky_i = st.cky_i;
    gateway.quick(&st, 0x1234, 0xAAAA);
    let delete = build_isakmp_delete(&st, 1).unwrap();
    assert_eq!(gateway.take(&delete), (Ok(ServerEvent::Deleted { cky_i }), None));
    assert_eq!(gateway.server.session_count(), 0);
    assert!(gateway.server.child(cky_i).is_none());
    let probe = build_r_u_there(&st, 2, 1).unwrap();
    assert_eq!(gateway.take(&probe), (Ok(ServerEvent::Ignored), None));
}

/// What is granted is the shorter of the volumes either end names.
#[test]
fn a_volume_limit_shortens_what_an_offer_asks_for() {
    let mut server: Server<Half, Child, Child> = Server::new();
    let offer = |kilobytes| SaLifetime { seconds: 60, kilobytes };
    assert_eq!(server.grant(offer(Some(7))), offer(Some(7)));
    assert_eq!(server.grant(offer(None)), offer(None));
    server.set_child_volume_limit(Some(5));
    assert_eq!(server.grant(offer(Some(7))), offer(Some(5)));
    assert_eq!(server.grant(offer(Some(3))), offer(Some(3)));
    assert_eq!(server.grant(offer(None)), offer(Some(5)));
}

/// An Informational that was tampered with is refused, and closes nothing.
#[test]
fn a_tampered_informational_is_refused() {
    let mut gateway = Gateway::new();
    let st = gateway.aggressive();
    let mut delete = build_isakmp_delete(&st, 1).unwrap();
    let last = delete.len() - 1;
    delete[last] ^= 1;
    assert!(!matches!(gateway.take(&delete).0, Ok(ServerEvent::Deleted { .. })));
    assert_eq!(gateway.server.session_count(), 1);
    assert_eq!(gateway.take(&[0; 27]).0, Err(IkeError::Truncated { need: 28, have: 27 }));
}
