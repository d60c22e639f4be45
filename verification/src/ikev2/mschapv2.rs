//! MS-CHAP-v2 (RFC 2759) — the challenge/response scheme carried by
//! EAP-MSCHAPv2, which is what stock **iOS and Android** IKEv2 clients use to
//! authenticate. This is legacy crypto (MD4 / DES / SHA-1), there solely for
//! this auth method.

use vstd::prelude::*;
use vstd::string::{StrSliceExecFns, StringExecFns};

use crate::bytes;
use crate::crypto::block;
use crate::crypto::hash;
use crate::text;

verus! {

/// "Magic server to client signing constant" (RFC 2759 §8.7).
pub const MAGIC1: [u8; 39] = [
    0x4d, 0x61, 0x67, 0x69, 0x63, 0x20, 0x73, 0x65, 0x72, 0x76, 0x65, 0x72,
    0x20, 0x74, 0x6f, 0x20, 0x63, 0x6c, 0x69, 0x65, 0x6e, 0x74, 0x20, 0x73,
    0x69, 0x67, 0x6e, 0x69, 0x6e, 0x67, 0x20, 0x63, 0x6f, 0x6e, 0x73, 0x74,
    0x61, 0x6e, 0x74,
];

/// "Pad to make it do more than one iteration" (RFC 2759 §8.7).
pub const MAGIC2: [u8; 41] = [
    0x50, 0x61, 0x64, 0x20, 0x74, 0x6f, 0x20, 0x6d, 0x61, 0x6b, 0x65, 0x20,
    0x69, 0x74, 0x20, 0x64, 0x6f, 0x20, 0x6d, 0x6f, 0x72, 0x65, 0x20, 0x74,
    0x68, 0x61, 0x6e, 0x20, 0x6f, 0x6e, 0x65, 0x20, 0x69, 0x74, 0x65, 0x72,
    0x61, 0x74, 0x69, 0x6f, 0x6e,
];

/// "This is the MPPE Master Key" (RFC 3079 §3.4).
pub const MPPE_MASTER_MAGIC: [u8; 27] = [
    0x54, 0x68, 0x69, 0x73, 0x20, 0x69, 0x73, 0x20, 0x74, 0x68, 0x65, 0x20,
    0x4d, 0x50, 0x50, 0x45, 0x20, 0x4d, 0x61, 0x73, 0x74, 0x65, 0x72, 0x20,
    0x4b, 0x65, 0x79,
];

/// "On the client side, this is the send key; on the server side, it is the
/// receive key." (RFC 3079 §3.4).
pub const MPPE_MAGIC2: [u8; 84] = [
    0x4f, 0x6e, 0x20, 0x74, 0x68, 0x65, 0x20, 0x63, 0x6c, 0x69, 0x65, 0x6e,
    0x74, 0x20, 0x73, 0x69, 0x64, 0x65, 0x2c, 0x20, 0x74, 0x68, 0x69, 0x73,
    0x20, 0x69, 0x73, 0x20, 0x74, 0x68, 0x65, 0x20, 0x73, 0x65, 0x6e, 0x64,
    0x20, 0x6b, 0x65, 0x79, 0x3b, 0x20, 0x6f, 0x6e, 0x20, 0x74, 0x68, 0x65,
    0x20, 0x73, 0x65, 0x72, 0x76, 0x65, 0x72, 0x20, 0x73, 0x69, 0x64, 0x65,
    0x2c, 0x20, 0x69, 0x74, 0x20, 0x69, 0x73, 0x20, 0x74, 0x68, 0x65, 0x20,
    0x72, 0x65, 0x63, 0x65, 0x69, 0x76, 0x65, 0x20, 0x6b, 0x65, 0x79, 0x2e,
];

/// "On the client side, this is the receive key; on the server side, it is the
/// send key." (RFC 3079 §3.4).
pub const MPPE_MAGIC3: [u8; 84] = [
    0x4f, 0x6e, 0x20, 0x74, 0x68, 0x65, 0x20, 0x63, 0x6c, 0x69, 0x65, 0x6e,
    0x74, 0x20, 0x73, 0x69, 0x64, 0x65, 0x2c, 0x20, 0x74, 0x68, 0x69, 0x73,
    0x20, 0x69, 0x73, 0x20, 0x74, 0x68, 0x65, 0x20, 0x72, 0x65, 0x63, 0x65,
    0x69, 0x76, 0x65, 0x20, 0x6b, 0x65, 0x79, 0x3b, 0x20, 0x6f, 0x6e, 0x20,
    0x74, 0x68, 0x65, 0x20, 0x73, 0x65, 0x72, 0x76, 0x65, 0x72, 0x20, 0x73,
    0x69, 0x64, 0x65, 0x2c, 0x20, 0x69, 0x74, 0x20, 0x69, 0x73, 0x20, 0x74,
    0x68, 0x65, 0x20, 0x73, 0x65, 0x6e, 0x64, 0x20, 0x6b, 0x65, 0x79, 0x2e,
];

/// A character in UTF-16, each unit least significant octet first.
pub open spec fn utf16_of(c: char) -> Seq<u8> {
    let v = c as int;
    if v < 0x1_0000 {
        seq![(v % 256) as u8, (v / 256) as u8]
    } else {
        let high = 0xD800 + (v - 0x1_0000) / 0x400;
        let low = 0xDC00 + (v - 0x1_0000) % 0x400;
        seq![(high % 256) as u8, (high / 256) as u8, (low % 256) as u8, (low / 256) as u8]
    }
}

/// A text in UTF-16-LE.
pub open spec fn utf16le(text: Seq<char>) -> Seq<u8>
    decreases text.len(),
{
    if text.len() == 0 {
        Seq::empty()
    } else {
        utf16le(text.drop_last()) + utf16_of(text.last())
    }
}

/// `NtPasswordHash = MD4(UTF-16-LE(password))` (RFC 2759 §8.3).
pub open spec fn password_hash(password: Seq<char>) -> Seq<u8> {
    hash::md4_of(utf16le(password))@
}

/// `HashNtPasswordHash = MD4(passwordHash)` (RFC 2759 §8.4).
pub open spec fn password_hash_hash(password: Seq<char>) -> Seq<u8> {
    hash::md4_of(password_hash(password))@
}

/// The first 8 octets of `SHA1(PeerChallenge | AuthenticatorChallenge |
/// UserName)` (RFC 2759 §8.2).
pub open spec fn hashed_challenge(peer: Seq<u8>, authenticator: Seq<u8>, user: Seq<u8>) -> Seq<u8> {
    hash::sha1_of(peer + authenticator + user)@.take(8)
}

/// The number seven octets write out, most significant first.
pub open spec fn seven(s: Seq<u8>) -> int {
    s[0] * 0x1_0000_0000_0000 + s[1] * 0x100_0000_0000 + s[2] * 0x1_0000_0000 + s[3] * 0x100_0000 + s[4] * 0x1_0000
        + s[5] * 0x100 + s[6]
}

/// The DES key of seven octets: each octet of it holds seven of their bits, above
/// a parity bit that is left clear.
pub open spec fn des_key(s: Seq<u8>) -> Seq<u8> {
    let bits = seven(s);
    seq![
        (bits / 0x2_0000_0000_0000 % 128 * 2) as u8,
        (bits / 0x400_0000_0000 % 128 * 2) as u8,
        (bits / 0x8_0000_0000 % 128 * 2) as u8,
        (bits / 0x1000_0000 % 128 * 2) as u8,
        (bits / 0x20_0000 % 128 * 2) as u8,
        (bits / 0x4000 % 128 * 2) as u8,
        (bits / 0x80 % 128 * 2) as u8,
        (bits % 128 * 2) as u8,
    ]
}

/// `ChallengeResponse` (RFC 2759 §8.5): three DES encryptions of the challenge
/// under the password hash, zero-padded to 21 octets and split into three.
pub open spec fn responded(challenge: Seq<u8>, hash: Seq<u8>) -> Seq<u8> {
    let padded = hash + bytes::zeros(5);
    block::des_enciphered(des_key(padded.subrange(0, 7)), challenge)@ + block::des_enciphered(
        des_key(padded.subrange(7, 14)),
        challenge,
    )@ + block::des_enciphered(des_key(padded.subrange(14, 21)), challenge)@
}

/// `GenerateNTResponse` (RFC 2759 §8.1).
pub open spec fn nt_response(authenticator: Seq<u8>, peer: Seq<u8>, user: Seq<u8>, password: Seq<char>) -> Seq<u8> {
    responded(hashed_challenge(peer, authenticator, user), password_hash(password))
}

/// The authenticator response of RFC 2759 §8.7.
pub open spec fn server_proof(
    password: Seq<char>,
    nt_response: Seq<u8>,
    peer: Seq<u8>,
    authenticator: Seq<u8>,
    user: Seq<u8>,
) -> Seq<u8> {
    let digest = hash::sha1_of(password_hash_hash(password) + nt_response + MAGIC1@)@;
    hash::sha1_of(digest + hashed_challenge(peer, authenticator, user) + MAGIC2@)@
}

/// The authenticator response as the text the authenticator returns.
pub open spec fn server_text(
    password: Seq<char>,
    nt_response: Seq<u8>,
    peer: Seq<u8>,
    authenticator: Seq<u8>,
    user: Seq<u8>,
) -> Seq<char> {
    "S="@ + text::hex(server_proof(password, nt_response, peer, authenticator, user))
}

/// `GetMasterKey` (RFC 3079 §3.4).
pub open spec fn master_key(hash_hash: Seq<u8>, nt_response: Seq<u8>) -> Seq<u8> {
    hash::sha1_of(hash_hash + nt_response + MPPE_MASTER_MAGIC@)@.take(16)
}

/// `GetAsymmetricStartKey` (RFC 3079 §3.4) for a 128-bit key.
pub open spec fn start_key(master: Seq<u8>, magic: Seq<u8>) -> Seq<u8> {
    hash::sha1_of(master + bytes::zeros(40) + magic + Seq::new(40, |i: int| 0xF2u8))@.take(16)
}

/// The 64-octet MSK of EAP-MSCHAPv2.
pub open spec fn msk_of(password: Seq<char>, nt_response: Seq<u8>) -> Seq<u8> {
    let master = master_key(password_hash_hash(password), nt_response);
    start_key(master, MPPE_MAGIC2@) + start_key(master, MPPE_MAGIC3@) + bytes::zeros(32)
}

/// `password` in UTF-16-LE.
fn encode_utf16le(password: &str) -> (out: Vec<u8>)
    ensures
        out@ == utf16le(password@),
{
    let mut out: Vec<u8> = Vec::new();
    let len: usize = password.unicode_len();
    assert(password@.take(0) =~= Seq::<char>::empty());
    for i in 0..len
        invariant
            len == password@.len(),
            out@ == utf16le(password@.take(i as int)),
    {
        let c: char = password.get_char(i);
        let v: u32 = c as u32;
        let ghost before = out@;
        if v < 0x1_0000 {
            out.push((v % 256) as u8);
            out.push((v / 256) as u8);
        } else {
            let high: u32 = 0xD800 + (v - 0x1_0000) / 0x400;
            let low: u32 = 0xDC00 + (v - 0x1_0000) % 0x400;
            out.push((high % 256) as u8);
            out.push((high / 256) as u8);
            out.push((low % 256) as u8);
            out.push((low / 256) as u8);
        }
        proof {
            assert(out@ =~= before + utf16_of(c));
            assert(password@.take(i + 1).drop_last() =~= password@.take(i as int));
            assert(password@.take(i + 1).last() == c);
        }
    }
    assert(password@.take(len as int) =~= password@);
    out
}

/// `NtPasswordHash = MD4(UTF-16-LE(password))` (RFC 2759 §8.3).
pub fn nt_password_hash(password: &str) -> (out: [u8; 16])
    ensures
        out@ == password_hash(password@),
{
    let digest = hash::md4_digest(&encode_utf16le(password));
    let out = bytes::array16(&digest, 0);
    assert(out@ =~= digest@);
    out
}

/// `HashNtPasswordHash = MD4(passwordHash)` (RFC 2759 §8.4).
pub fn hash_nt_password_hash(password_hash: &[u8; 16]) -> (out: [u8; 16])
    ensures
        out@ == hash::md4_of(password_hash@)@,
{
    let digest = hash::md4_digest(password_hash);
    let out = bytes::array16(&digest, 0);
    assert(out@ =~= digest@);
    out
}

/// `ChallengeHash` = first 8 octets of `SHA1(PeerChallenge |
/// AuthenticatorChallenge | UserName)` (RFC 2759 §8.2).
pub fn challenge_hash(peer_challenge: &[u8; 16], authenticator_challenge: &[u8; 16], user_name: &[u8]) -> (out: [u8; 8])
    ensures
        out@ == hashed_challenge(peer_challenge@, authenticator_challenge@, user_name@),
{
    let mut input: Vec<u8> = Vec::new();
    bytes::push_all(&mut input, peer_challenge);
    bytes::push_all(&mut input, authenticator_challenge);
    bytes::push_all(&mut input, user_name);
    assert(input@ =~= peer_challenge@ + authenticator_challenge@ + user_name@);
    let digest = hash::sha1_digest(&input);
    let out = bytes::array8(&digest, 0);
    assert(out@ =~= digest@.take(8));
    out
}

/// Expand a 7-octet string into an 8-octet DES key (MS `str_to_key`); the low bit
/// of each output octet is an ignored parity bit.
fn str_to_key(s: &[u8]) -> (key: Vec<u8>)
    requires
        s@.len() == 7,
    ensures
        key@ == des_key(s@),
        key@.len() == 8,
{
    let bits: u64 = s[0] as u64 * 0x1_0000_0000_0000 + s[1] as u64 * 0x100_0000_0000 + s[2] as u64 * 0x1_0000_0000
        + s[3] as u64 * 0x100_0000 + s[4] as u64 * 0x1_0000 + s[5] as u64 * 0x100 + s[6] as u64;
    let mut key: Vec<u8> = Vec::new();
    key.push((bits / 0x2_0000_0000_0000 % 128 * 2) as u8);
    key.push((bits / 0x400_0000_0000 % 128 * 2) as u8);
    key.push((bits / 0x8_0000_0000 % 128 * 2) as u8);
    key.push((bits / 0x1000_0000 % 128 * 2) as u8);
    key.push((bits / 0x20_0000 % 128 * 2) as u8);
    key.push((bits / 0x4000 % 128 * 2) as u8);
    key.push((bits / 0x80 % 128 * 2) as u8);
    key.push((bits % 128 * 2) as u8);
    assert(key@ =~= des_key(s@));
    key
}

/// `ChallengeResponse` (RFC 2759 §8.5) → 24 octets: three DES encryptions of the
/// 8-octet challenge under the password hash (zero-padded to 21 octets, split
/// 7/7/7).
pub fn challenge_response(challenge: &[u8; 8], password_hash: &[u8; 16]) -> (out: [u8; 24])
    ensures
        out@ == responded(challenge@, password_hash@),
{
    let mut padded = bytes::copy(password_hash);
    bytes::push_zeros(&mut padded, 5);
    let first = block::des_encrypt_block(&str_to_key(bytes::range(&padded, 0, 7)), challenge);
    let second = block::des_encrypt_block(&str_to_key(bytes::range(&padded, 7, 14)), challenge);
    let third = block::des_encrypt_block(&str_to_key(bytes::range(&padded, 14, 21)), challenge);
    let mut all: Vec<u8> = Vec::new();
    bytes::push_all(&mut all, &first);
    bytes::push_all(&mut all, &second);
    bytes::push_all(&mut all, &third);
    assert(all@ =~= responded(challenge@, password_hash@));
    let out = bytes::array24(&all, 0);
    assert(out@ =~= all@);
    out
}

/// `GenerateNTResponse` (RFC 2759 §8.1) → the 24-octet NT-Response.
pub fn generate_nt_response(
    authenticator_challenge: &[u8; 16],
    peer_challenge: &[u8; 16],
    user_name: &[u8],
    password: &str,
) -> (out: [u8; 24])
    ensures
        out@ == nt_response(authenticator_challenge@, peer_challenge@, user_name@, password@),
{
    let challenge = challenge_hash(peer_challenge, authenticator_challenge, user_name);
    let password_hash = nt_password_hash(password);
    challenge_response(&challenge, &password_hash)
}

/// `GenerateAuthenticatorResponse` (RFC 2759 §8.7) → the `"S=<40 hex>"` string
/// the authenticator returns and the peer verifies.
pub fn generate_authenticator_response(
    password: &str,
    nt_response: &[u8; 24],
    peer_challenge: &[u8; 16],
    authenticator_challenge: &[u8; 16],
    user_name: &[u8],
) -> (out: String)
    ensures
        out@ == server_text(password@, nt_response@, peer_challenge@, authenticator_challenge@, user_name@),
{
    let digest = authenticator_response(password, nt_response, peer_challenge, authenticator_challenge, user_name);
    let mut out = String::from_str("S=");
    text::push_hex(&mut out, &digest);
    out
}

/// The 20 octets of RFC 2759 §8.7's authenticator response, the number
/// [`generate_authenticator_response`] writes out in hex.
pub fn authenticator_response(
    password: &str,
    nt_response: &[u8; 24],
    peer_challenge: &[u8; 16],
    authenticator_challenge: &[u8; 16],
    user_name: &[u8],
) -> (out: [u8; 20])
    ensures
        out@ == server_proof(password@, nt_response@, peer_challenge@, authenticator_challenge@, user_name@),
{
    let password_hash_hash = hash_nt_password_hash(&nt_password_hash(password));
    let mut input: Vec<u8> = Vec::new();
    bytes::push_all(&mut input, &password_hash_hash);
    bytes::push_all(&mut input, nt_response);
    bytes::push_all(&mut input, &MAGIC1);
    assert(input@ =~= password_hash_hash@ + nt_response@ + MAGIC1@);
    let digest = hash::sha1_digest(&input);
    let challenge = challenge_hash(peer_challenge, authenticator_challenge, user_name);
    let mut last: Vec<u8> = Vec::new();
    bytes::push_all(&mut last, &digest);
    bytes::push_all(&mut last, &challenge);
    bytes::push_all(&mut last, &MAGIC2);
    assert(last@ =~= digest@ + challenge@ + MAGIC2@);
    let proof_octets = hash::sha1_digest(&last);
    let out = bytes::array20(&proof_octets, 0);
    assert(out@ =~= proof_octets@);
    out
}

/// `GetMasterKey` (RFC 3079 §3.4): `SHA1(PasswordHashHash | NTResponse | magic)[0..16]`.
pub fn get_master_key(password_hash_hash: &[u8; 16], nt_response: &[u8; 24]) -> (out: [u8; 16])
    ensures
        out@ == master_key(password_hash_hash@, nt_response@),
{
    let mut input: Vec<u8> = Vec::new();
    bytes::push_all(&mut input, password_hash_hash);
    bytes::push_all(&mut input, nt_response);
    bytes::push_all(&mut input, &MPPE_MASTER_MAGIC);
    assert(input@ =~= password_hash_hash@ + nt_response@ + MPPE_MASTER_MAGIC@);
    let digest = hash::sha1_digest(&input);
    let out = bytes::array16(&digest, 0);
    assert(out@ =~= digest@.take(16));
    out
}

/// `GetAsymmetricStartKey` (RFC 3079 §3.4) for a 128-bit key:
/// `SHA1(MasterKey | SHSpad1 | magic | SHSpad2)[0..16]`.
fn asymmetric_start_key(master_key: &[u8; 16], magic: &[u8]) -> (out: [u8; 16])
    ensures
        out@ == start_key(master_key@, magic@),
{
    let pad: [u8; 40] = [0xF2; 40];
    let mut input: Vec<u8> = Vec::new();
    bytes::push_all(&mut input, master_key);
    bytes::push_zeros(&mut input, 40);
    bytes::push_all(&mut input, magic);
    bytes::push_all(&mut input, &pad);
    assert(pad@ =~= Seq::new(40, |i: int| 0xF2u8));
    assert(input@ =~= master_key@ + bytes::zeros(40) + magic@ + Seq::new(40, |i: int| 0xF2u8));
    let digest = hash::sha1_digest(&input);
    let out = bytes::array16(&digest, 0);
    assert(out@ =~= digest@.take(16));
    out
}

/// Derive the 64-octet EAP-MSCHAPv2 **MSK** from the password and NT-Response.
/// Role-independent — both peer and authenticator compute the same value. IKEv2
/// uses this as the shared key for the AUTH payload when EAP produced it
/// (RFC 7296 §2.16).
///
/// Per RFC 3079 / draft-kamath the keys are taken from the *server's*
/// perspective: `MasterReceiveKey = ASK(…, IsSend=false, IsServer=true) = Magic2`
/// and `MasterSendKey = ASK(…, IsSend=true, IsServer=true) = Magic3`, so
/// `MSK = MasterReceiveKey ‖ MasterSendKey ‖ 32 zero octets = ASK(Magic2) ‖ ASK(Magic3) ‖ 0…`.
pub fn derive_msk(password: &str, nt_response: &[u8; 24]) -> (out: [u8; 64])
    ensures
        out@ == msk_of(password@, nt_response@),
{
    let master = get_master_key(&hash_nt_password_hash(&nt_password_hash(password)), nt_response);
    let receive = asymmetric_start_key(&master, &MPPE_MAGIC2);
    let send = asymmetric_start_key(&master, &MPPE_MAGIC3);
    let mut all: Vec<u8> = Vec::new();
    bytes::push_all(&mut all, &receive);
    bytes::push_all(&mut all, &send);
    bytes::push_zeros(&mut all, 32);
    assert(all@ =~= msk_of(password@, nt_response@));
    let out = bytes::array64(&all, 0);
    assert(out@ =~= all@);
    out
}

} // verus!
