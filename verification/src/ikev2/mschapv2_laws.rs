//! What the MS-CHAPv2 values are (RFC 2759, RFC 3079), written out over MD4, SHA-1 and
//! DES, and where they stand in the EAP packets that carry them.

use vstd::prelude::*;
use vstd::utf8::encode_utf8;

use crate::bytes;
use crate::crypto::block;
use crate::crypto::hash;
use crate::error::Failure;
use crate::ikev2::eap;
use crate::ikev2::eap::{Packet, Responded};
use crate::ikev2::message;
use crate::ikev2::mschapv2;
use crate::text;

verus! {

/// The octets of an ASCII text.
pub open spec fn ascii(text: Seq<char>) -> Seq<u8> {
    Seq::new(text.len(), |i: int| text[i] as u8)
}

/// A password is hashed in UTF-16 with the low octet of each unit first: one unit for a
/// character below 0x10000, a surrogate pair for one above; the units of a text are
/// those of its characters in order.
pub proof fn law_utf16_little_endian(before: Seq<char>, c: char)
    ensures
        mschapv2::utf16le(Seq::empty()) == Seq::<u8>::empty(),
        (c as int) < 0x1_0000 ==> mschapv2::utf16le(before.push(c)) == mschapv2::utf16le(before) + seq![
            (c as int % 256) as u8,
            (c as int / 256) as u8,
        ],
        (c as int) >= 0x1_0000 ==> {
            let high = 0xD800 + (c as int - 0x1_0000) / 0x400;
            let low = 0xDC00 + (c as int - 0x1_0000) % 0x400;
            mschapv2::utf16le(before.push(c)) == mschapv2::utf16le(before) + seq![
                (high % 256) as u8,
                (high / 256) as u8,
                (low % 256) as u8,
                (low / 256) as u8,
            ]
        },
        mschapv2::password_hash(before) == hash::md4_of(mschapv2::utf16le(before))@,
{
    assert(before.push(c).drop_last() =~= before);
}

/// The challenge that is answered is the first 8 octets of SHA-1 over the peer's
/// challenge, the authenticator's challenge and the user name.
pub proof fn law_challenge_hash(peer: Seq<u8>, authenticator: Seq<u8>, user: Seq<u8>)
    ensures
        mschapv2::hashed_challenge(peer, authenticator, user) == hash::sha1_of(peer + authenticator + user)@.subrange(
            0,
            8,
        ),
{
}

/// A DES key is made of 56 bits by setting a bit after each seven of them: the upper
/// seven bits of its octets, one after the other, are the bits of the seven octets, and
/// the lowest bit of each is clear.
pub proof fn law_des_key_spreads_bits(s: Seq<u8>)
    requires
        s.len() == 7,
    ensures
        ({
            let key = mschapv2::des_key(s);
            &&& key.len() == 8
            &&& forall|i: int| 0 <= i < 8 ==> #[trigger] key[i] % 2 == 0
            &&& (key[0] / 2) * 0x2_0000_0000_0000 + (key[1] / 2) * 0x400_0000_0000 + (key[2] / 2) * 0x8_0000_0000
                + (key[3] / 2) * 0x1000_0000 + (key[4] / 2) * 0x20_0000 + (key[5] / 2) * 0x4000 + (key[6] / 2) * 0x80 + (
            key[7] / 2) == s[0] * 0x1_0000_0000_0000 + s[1] * 0x100_0000_0000 + s[2] * 0x1_0000_0000 + s[3] * 0x100_0000
                + s[4] * 0x1_0000 + s[5] * 0x100 + s[6]
        }),
{
    let bits = mschapv2::seven(s);
    assert(0 <= bits < 0x100_0000_0000_0000);
    lemma_seven_bits(bits);
}

/// The eight groups of seven bits of a 56-bit number.
proof fn lemma_seven_bits(bits: int)
    requires
        0 <= bits < 0x100_0000_0000_0000,
    ensures
        (bits / 0x2_0000_0000_0000 % 128) * 0x2_0000_0000_0000 + (bits / 0x400_0000_0000 % 128) * 0x400_0000_0000 + (bits
            / 0x8_0000_0000 % 128) * 0x8_0000_0000 + (bits / 0x1000_0000 % 128) * 0x1000_0000 + (bits / 0x20_0000 % 128)
            * 0x20_0000 + (bits / 0x4000 % 128) * 0x4000 + (bits / 0x80 % 128) * 0x80 + bits % 128 == bits,
{
    lemma_next_group(bits, 0x80);
    lemma_next_group(bits, 0x4000);
    lemma_next_group(bits, 0x20_0000);
    lemma_next_group(bits, 0x1000_0000);
    lemma_next_group(bits, 0x8_0000_0000);
    lemma_next_group(bits, 0x400_0000_0000);
    let a = bits / 0x80;
    let b = bits / 0x4000;
    let c = bits / 0x20_0000;
    let d = bits / 0x1000_0000;
    let e = bits / 0x8_0000_0000;
    let f = bits / 0x400_0000_0000;
    let g = bits / 0x2_0000_0000_0000;
    assert(0 <= g < 128);
    assert(f == g * 128 + f % 128);
    assert(e == f * 128 + e % 128);
    assert(d == e * 128 + d % 128);
    assert(c == d * 128 + c % 128);
    assert(b == c * 128 + b % 128);
    assert(a == b * 128 + a % 128);
    assert(bits == a * 128 + bits % 128);
}

/// Dividing on by 128.
proof fn lemma_next_group(bits: int, unit: int)
    requires
        0 <= bits,
        0 < unit,
    ensures
        bits / (unit * 128) == (bits / unit) / 128,
{
    vstd::arithmetic::div_mod::lemma_div_denominator(bits, unit, 128);
}

/// The Response to a challenge is DES of the challenge under the octets 0 to 7, 7 to 14
/// and, filled up with zeros, 14 to 21 of the password hash.
pub proof fn law_challenge_response(challenge: Seq<u8>, password_hash: Seq<u8>)
    requires
        password_hash.len() == 16,
    ensures
        ({
            let out = mschapv2::responded(challenge, password_hash);
            &&& out.len() == 24
            &&& out.subrange(0, 8) == block::des_enciphered(
                mschapv2::des_key(password_hash.subrange(0, 7)),
                challenge,
            )@
            &&& out.subrange(8, 16) == block::des_enciphered(
                mschapv2::des_key(password_hash.subrange(7, 14)),
                challenge,
            )@
            &&& out.subrange(16, 24) == block::des_enciphered(
                mschapv2::des_key(password_hash.subrange(14, 16) + seq![0u8, 0u8, 0u8, 0u8, 0u8]),
                challenge,
            )@
        }),
{
    let out = mschapv2::responded(challenge, password_hash);
    let filled = password_hash + bytes::zeros(5);
    assert(filled.subrange(0, 7) =~= password_hash.subrange(0, 7));
    assert(filled.subrange(7, 14) =~= password_hash.subrange(7, 14));
    assert(filled.subrange(14, 21) =~= password_hash.subrange(14, 16) + seq![0u8, 0u8, 0u8, 0u8, 0u8]);
    assert(out.subrange(0, 8) =~= block::des_enciphered(mschapv2::des_key(filled.subrange(0, 7)), challenge)@);
    assert(out.subrange(8, 16) =~= block::des_enciphered(mschapv2::des_key(filled.subrange(7, 14)), challenge)@);
    assert(out.subrange(16, 24) =~= block::des_enciphered(mschapv2::des_key(filled.subrange(14, 21)), challenge)@);
}

/// The NT-Response answers the hash of both challenges and the user name with the hash
/// of the password.
pub proof fn law_nt_response(authenticator: Seq<u8>, peer: Seq<u8>, user: Seq<u8>, password: Seq<char>)
    ensures
        mschapv2::nt_response(authenticator, peer, user, password) == mschapv2::responded(
            hash::sha1_of(peer + authenticator + user)@.subrange(0, 8),
            hash::md4_of(mschapv2::utf16le(password))@,
        ),
{
}

/// The authenticator response is SHA-1 over SHA-1 of the twice hashed password, the
/// NT-Response and the text "Magic server to client signing constant", the challenge
/// hash and the text "Pad to make it do more than one iteration"; on the wire it is
/// "S=" and forty upper-case digits.
pub proof fn law_authenticator_response(
    password: Seq<char>,
    nt_response: Seq<u8>,
    peer: Seq<u8>,
    authenticator: Seq<u8>,
    user: Seq<u8>,
)
    ensures
        ({
            let twice = hash::md4_of(hash::md4_of(mschapv2::utf16le(password))@)@;
            let inner = hash::sha1_of(twice + nt_response + ascii("Magic server to client signing constant"@))@;
            let proof_octets = hash::sha1_of(
                inner + hash::sha1_of(peer + authenticator + user)@.subrange(0, 8) + ascii(
                    "Pad to make it do more than one iteration"@,
                ),
            )@;
            let text = mschapv2::server_text(password, nt_response, peer, authenticator, user);
            &&& mschapv2::server_proof(password, nt_response, peer, authenticator, user) == proof_octets
            &&& text.len() == 42
            &&& text[0] == 'S' && text[1] == '='
            &&& forall|i: int|
                0 <= i < 20 ==> {
                    &&& #[trigger] text[2 + 2 * i] == "0123456789ABCDEF"@[proof_octets[i] as int / 16]
                    &&& text[3 + 2 * i] == "0123456789ABCDEF"@[proof_octets[i] as int % 16]
                }
        }),
{
    reveal_strlit("Magic server to client signing constant");
    reveal_strlit("Pad to make it do more than one iteration");
    reveal_strlit("S=");
    reveal_strlit("0123456789ABCDEF");
    assert(mschapv2::MAGIC1@ =~= ascii("Magic server to client signing constant"@));
    assert(mschapv2::MAGIC2@ =~= ascii("Pad to make it do more than one iteration"@));
    let proof_octets = mschapv2::server_proof(password, nt_response, peer, authenticator, user);
    let text = mschapv2::server_text(password, nt_response, peer, authenticator, user);
    assert forall|i: int| 0 <= i < 20 implies {
        &&& #[trigger] text[2 + 2 * i] == "0123456789ABCDEF"@[proof_octets[i] as int / 16]
        &&& text[3 + 2 * i] == "0123456789ABCDEF"@[proof_octets[i] as int % 16]
    } by {
        assert(text[2 + 2 * i] == text::hex(proof_octets)[2 * i]);
        assert(text[3 + 2 * i] == text::hex(proof_octets)[2 * i + 1]);
        assert((2 * i) / 2 == i && (2 * i) % 2 == 0 && (2 * i + 1) / 2 == i && (2 * i + 1) % 2 == 1);
    }
}

/// SHA-1 over the master key, 40 zero octets, a text and 40 octets 0xF2, cut to 16: how
/// MPPE makes a session start key.
pub open spec fn start_key(master: Seq<u8>, text: Seq<char>) -> Seq<u8> {
    hash::sha1_of(master + Seq::new(40, |i: int| 0u8) + ascii(text) + Seq::new(40, |i: int| 0xF2u8))@.subrange(0, 16)
}

/// The MSK is the client's send key, the client's receive key and 32 zero octets, both
/// made of the master key: the first 16 octets of SHA-1 over the twice hashed password,
/// the NT-Response and the text "This is the MPPE Master Key".
pub proof fn law_msk(password: Seq<char>, nt_response: Seq<u8>)
    ensures
        ({
            let twice = hash::md4_of(hash::md4_of(mschapv2::utf16le(password))@)@;
            let master = hash::sha1_of(twice + nt_response + ascii("This is the MPPE Master Key"@))@.subrange(0, 16);
            let msk = mschapv2::msk_of(password, nt_response);
            &&& mschapv2::master_key(twice, nt_response) == master
            &&& msk.len() == 64
            &&& msk.subrange(0, 16) == start_key(
                master,
                "On the client side, this is the send key; on the server side, it is the receive key."@,
            )
            &&& msk.subrange(16, 32) == start_key(
                master,
                "On the client side, this is the receive key; on the server side, it is the send key."@,
            )
            &&& forall|i: int| 32 <= i < 64 ==> #[trigger] msk[i] == 0
        }),
{
    reveal_strlit("This is the MPPE Master Key");
    reveal_strlit("On the client side, this is the send key; on the server side, it is the receive key.");
    reveal_strlit("On the client side, this is the receive key; on the server side, it is the send key.");
    assert(mschapv2::MPPE_MASTER_MAGIC@ =~= ascii("This is the MPPE Master Key"@));
    assert(mschapv2::MPPE_MAGIC2@ =~= ascii(
        "On the client side, this is the send key; on the server side, it is the receive key."@,
    ));
    assert(mschapv2::MPPE_MAGIC3@ =~= ascii(
        "On the client side, this is the receive key; on the server side, it is the send key."@,
    ));
    let twice = mschapv2::password_hash_hash(password);
    let master = mschapv2::master_key(twice, nt_response);
    let msk = mschapv2::msk_of(password, nt_response);
    assert(bytes::zeros(40) =~= Seq::new(40, |i: int| 0u8));
    assert(msk.subrange(0, 16) =~= mschapv2::start_key(master, mschapv2::MPPE_MAGIC2@));
    assert(msk.subrange(16, 32) =~= mschapv2::start_key(master, mschapv2::MPPE_MAGIC3@));
}

/// An EAP packet is its code, its Identifier, its length in two octets with those four,
/// and its data.
pub proof fn law_eap_packet_layout(packet: Packet, body: Seq<u8>)
    ensures
        4 + packet.data.len() < 0x1_0000 ==> {
            let out = packet.octets();
            &&& out.len() == 4 + packet.data.len()
            &&& out[0] == packet.code && out[1] == packet.identifier
            &&& out[2] * 256 + out[3] == out.len()
            &&& out.subrange(4, out.len() as int) == packet.data
        },
        Packet::read(body) is Ok <==> body.len() >= 4 && 4 <= body[2] * 256 + body[3] <= body.len(),
        Packet::read(body) matches Ok(read) ==> {
            &&& read.code == body[0] && read.identifier == body[1]
            &&& read.data == body.subrange(4, body[2] * 256 + body[3])
        },
        packet.data.len() > 0 ==> packet.method() == Some(packet.data[0]),
        packet.data.len() > 1 ==> packet.opcode() == Some(packet.data[1]),
        packet.data.len() == 0 ==> packet.method() is None,
        packet.data.len() < 2 ==> packet.opcode() is None,
        eap::code::REQUEST == 1 && eap::code::RESPONSE == 2 && eap::code::SUCCESS == 3 && eap::code::FAILURE == 4,
        eap::eap_type::IDENTITY == 1 && eap::eap_type::NOTIFICATION == 2 && eap::eap_type::NAK == 3
            && eap::eap_type::MSCHAPV2 == 26,
        eap::op::CHALLENGE == 1 && eap::op::RESPONSE == 2 && eap::op::SUCCESS == 3 && eap::op::FAILURE == 4,
{
    if 4 + packet.data.len() < 0x1_0000 {
        assert(packet.octets().subrange(4, packet.octets().len() as int) =~= packet.data);
    }
}

/// A Challenge's method-data: type 26, opcode 1, its MS-CHAPv2-ID, its length but for
/// the type, the Value-Size 16, the challenge and the name.
pub proof fn law_challenge_layout(mschap_id: u8, challenge: Seq<u8>, name: Seq<u8>)
    requires
        challenge.len() == 16,
        21 + name.len() < 0x1_0000,
    ensures
        ({
            let data = eap::challenge_data(mschap_id, challenge, name);
            &&& data.len() == 22 + name.len()
            &&& data[0] == 26 && data[1] == 1 && data[2] == mschap_id
            &&& data[3] * 256 + data[4] == data.len() - 1
            &&& data[5] == 16
            &&& data.subrange(6, 22) == challenge
            &&& data.subrange(22, data.len() as int) == name
        }),
{
    let data = eap::challenge_data(mschap_id, challenge, name);
    assert(data.subrange(6, 22) =~= challenge);
    assert(data.subrange(22, data.len() as int) =~= name);
}

/// What is taken for a Challenge, and from where its fields are read.
pub proof fn law_challenge_is_read_by_offset(data: Seq<u8>)
    ensures
        eap::read_challenge(data) is Ok <==> data.len() >= 22 && data[0] == 26 && data[1] == 1 && data[3] * 256 + data[4]
            == data.len() - 1 && data[5] == 16,
        eap::read_challenge(data) matches Ok((mschap_id, challenge, name)) ==> {
            &&& mschap_id == data[2]
            &&& challenge == data.subrange(6, 22)
            &&& name == data.subrange(22, data.len() as int)
        },
{
}

/// A Response's method-data: type 26, opcode 2, its MS-CHAPv2-ID, its length but for the
/// type, the Value-Size 49, the peer's challenge, eight zero octets, the NT-Response, a
/// zero octet and the name.
pub proof fn law_response_layout(mschap_id: u8, peer_challenge: Seq<u8>, nt_response: Seq<u8>, user: Seq<u8>)
    requires
        peer_challenge.len() == 16,
        nt_response.len() == 24,
        54 + user.len() < 0x1_0000,
    ensures
        ({
            let data = eap::response_data(mschap_id, peer_challenge, nt_response, user);
            &&& data.len() == 55 + user.len()
            &&& data[0] == 26 && data[1] == 2 && data[2] == mschap_id
            &&& data[3] * 256 + data[4] == data.len() - 1
            &&& data[5] == 49
            &&& data.subrange(6, 22) == peer_challenge
            &&& forall|i: int| 22 <= i < 30 ==> #[trigger] data[i] == 0
            &&& data.subrange(30, 54) == nt_response
            &&& data[54] == 0
            &&& data.subrange(55, data.len() as int) == user
        }),
{
    let data = eap::response_data(mschap_id, peer_challenge, nt_response, user);
    assert(data.subrange(6, 22) =~= peer_challenge);
    assert(data.subrange(30, 54) =~= nt_response);
    assert(data.subrange(55, data.len() as int) =~= user);
}

/// What is taken for a Response, and from where its fields are read.
pub proof fn law_response_is_read_by_offset(data: Seq<u8>)
    ensures
        Responded::read(data) is Ok <==> data.len() >= 55 && data[0] == 26 && data[1] == 2 && data[3] * 256 + data[4]
            == data.len() - 1 && data[5] == 49,
        Responded::read(data) matches Ok(read) ==> {
            &&& read.mschap_id == data[2]
            &&& read.peer_challenge == data.subrange(6, 22)
            &&& read.nt_response == data.subrange(30, 54)
            &&& read.name == data.subrange(55, data.len() as int)
        },
{
}

/// A Response is taken exactly where its octets 30 to 54 are the NT-Response of its
/// octets 6 to 22, the challenge, the name after octet 55 and the password; what it is
/// answered with is that Response's authenticator response.
pub proof fn law_response_verifies_by_offset(authenticator: Seq<u8>, data: Seq<u8>, password: Seq<char>)
    requires
        Responded::read(data) is Ok,
    ensures
        ({
            let peer = data.subrange(6, 22);
            let user = data.subrange(55, data.len() as int);
            let expected = mschapv2::nt_response(authenticator, peer, user, password);
            eap::verified_response(authenticator, data, password) == if data.subrange(30, 54) == expected {
                Ok::<Seq<char>, Failure>(mschapv2::server_text(password, expected, peer, authenticator, user))
            } else {
                Err(Failure::AuthFailed)
            }
        }),
{
}

/// A Success Request's method-data: type 26, opcode 3, the MS-CHAPv2-ID, its length but
/// for the type, and the text.
pub proof fn law_success_layout(mschap_id: u8, text: Seq<char>)
    requires
        4 + encode_utf8(text).len() < 0x1_0000,
    ensures
        ({
            let data = eap::success_data(mschap_id, text);
            &&& data.len() == 5 + encode_utf8(text).len()
            &&& data[0] == 26 && data[1] == 3 && data[2] == mschap_id
            &&& data[3] * 256 + data[4] == data.len() - 1
            &&& data.subrange(5, data.len() as int) == encode_utf8(text)
        }),
{
    let data = eap::success_data(mschap_id, text);
    assert(data.subrange(5, data.len() as int) =~= encode_utf8(text));
}

/// The value of a hexadecimal digit in ASCII.
pub open spec fn is_digit_of(digit: u8, value: int) -> bool {
    ||| 0 <= value <= 9 && digit == 0x30 + value
    ||| 10 <= value <= 15 && digit == 0x41 + value - 10
    ||| 10 <= value <= 15 && digit == 0x61 + value - 10
}

/// A Success Request is taken only where "S=" and forty hexadecimal digits follow its
/// header, and is read as the twenty octets of those digits, the upper half of each
/// first.
pub proof fn law_success_is_read_by_offset(data: Seq<u8>)
    ensures
        eap::read_success(data) matches Ok(octets) ==> {
            &&& data.len() >= 47 && data[0] == 26 && data[1] == 3 && data[3] * 256 + data[4] == data.len() - 1
            &&& data[5] == 0x53 && data[6] == 0x3d
            &&& octets.len() == 20
            &&& forall|i: int|
                0 <= i < 20 ==> is_digit_of(data[7 + 2 * i], (#[trigger] octets[i]) as int / 16) && is_digit_of(
                    data[8 + 2 * i],
                    octets[i] as int % 16,
                )
        },
        data.len() >= 47 && data[0] == 26 && data[1] == 3 && data[3] * 256 + data[4] == data.len() - 1 && data[5] == 0x53
            && data[6] == 0x3d && (forall|i: int|
            7 <= i < 47 ==> 0x30 <= (#[trigger] data[i]) <= 0x39 || 0x41 <= data[i] <= 0x46 || 0x61 <= data[i] <= 0x66)
            ==> eap::read_success(data) is Ok,
{
    let digits = data.subrange(7, 47);
    if let Ok(octets) = eap::read_success(data) {
        assert forall|i: int| 0 <= i < 20 implies is_digit_of(data[7 + 2 * i], (#[trigger] octets[i]) as int / 16)
            && is_digit_of(data[8 + 2 * i], octets[i] as int % 16) by {
            assert(digits[2 * i] == data[7 + 2 * i]);
            assert(digits[2 * i + 1] == data[8 + 2 * i]);
            assert(eap::digit_value(digits[2 * i]) is Some);
            assert(eap::digit_value(digits[2 * i + 1]) is Some);
        }
    }
    if data.len() >= 47 && forall|i: int|
        7 <= i < 47 ==> 0x30 <= (#[trigger] data[i]) <= 0x39 || 0x41 <= data[i] <= 0x46 || 0x61 <= data[i] <= 0x66 {
        assert forall|i: int| 0 <= i < digits.len() implies eap::digit_value(#[trigger] digits[i]) is Some by {
            assert(digits[i] == data[7 + i]);
        }
    }
}

} // verus!
