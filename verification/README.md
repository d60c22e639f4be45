# ryke

IKEv2 and IKEv1 building blocks, verified with Verus: the messages of each
exchange are parsed, checked and built by functions whose contracts say exactly
what they return, and the properties that span several of them are proved.

## Layout

- `src/` is the verified library.
  - `bytes`, `text`, `time`, `addr`, `role`, `error`, `entropy`: plain values.
  - `crypto`: hashes, HMAC, PRFs, block and AEAD ciphers, Diffie-Hellman groups and
    the key schedule. The primitives come from the RustCrypto crates, `num-bigint`
    and `x25519-dalek`, behind functions whose doc comments say what is taken from
    them without proof.
  - `ikev2`: framing (`message`), payload bodies (`payload`), the SK payload (`sk`),
    fragments (`fragment`), negotiation (`negotiate`, `child`), `IKE_SA_INIT`
    (`exchange`, `natt`, `client`), `IKE_AUTH` (`auth`, `ike_auth`, `auth_laws`),
    EAP-MSCHAPv2 (`eap`, `mschapv2`, `eap_auth`), rekeying the IKE SA (`ike_rekey`),
    INFORMATIONAL and MOBIKE (`informational`, `mobike`).
  - `ikev1`: framing (`isakmp`, `phase2`), Mode-Config and XAUTH (`modecfg`, `xauth`),
    DPD and Deletes (`informational`), retransmission timing (`rtt`) and the state of
    a responder (`server`).
- `tests/` runs the library on published vectors and whole exchanges.
- `app/` holds blocking UDP drivers around it.

## What a caller supplies

Sockets, randomness ([`entropy::Entropy`]), the current time, the data plane, and
the judgement of certificates: a peer's certificates and signature are handed out as
a claim, and taken once the claim was vouched for. The IKEv1 responder likewise asks
its caller to run the key exchanges of Phase 1 and Quick Mode.
