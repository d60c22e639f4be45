//! EAP (RFC 3748) message framing and the EAP-MSCHAPv2 messages that ride inside
//! an IKEv2 EAP payload. Ties the [`crate::ikev2::mschapv2`] crypto into a
//! Challenge → Response → Success round.

pub mod code;
pub mod eap_type;
pub mod op;

use vstd::prelude::*;
use vstd::utf8::encode_utf8;

use crate::bytes;
use crate::error::{viewed, Failure, IkeError};
use crate::ikev2::message;
use crate::ikev2::mschapv2;
use crate::ikev2::mschapv2::{generate_authenticator_response, generate_nt_response};
use crate::text;

verus! {

/// An EAP packet — the body of an IKEv2 EAP payload (RFC 3748 §4).
#[derive(Debug, Clone, PartialEq, Eq)]
pub struct EapPacket {
    pub code: u8,
    pub identifier: u8,
    /// For Request/Response, `[Type, method-data…]`; empty for Success/Failure.
    pub data: Vec<u8>,
}

/// An [`EapPacket`] as a value of the specification.
#[verifier::ext_equal]
pub struct Packet {
    pub code: u8,
    pub identifier: u8,
    pub data: Seq<u8>,
}

impl View for EapPacket {
    type V = Packet;

    open spec fn view(&self) -> Packet {
        Packet { code: self.code, identifier: self.identifier, data: self.data@ }
    }
}

impl Packet {
    /// The packet on the wire.
    pub open spec fn octets(self) -> Seq<u8> {
        seq![self.code, self.identifier] + bytes::be16(message::field16(4 + self.data.len())) + self.data
    }

    /// The packet `body` opens with; octets past its length are padding.
    pub open spec fn read(body: Seq<u8>) -> Result<Packet, Failure> {
        if body.len() < 4 {
            Err(Failure::Truncated { need: 4, have: body.len() })
        } else if bytes::at16(body, 2) < 4 || bytes::at16(body, 2) > body.len() {
            Err(Failure::BadLength { declared: bytes::at16(body, 2) as nat, available: body.len() })
        } else {
            Ok(
                Packet {
                    code: body[0],
                    identifier: body[1],
                    data: body.subrange(4, bytes::at16(body, 2) as int),
                },
            )
        }
    }

    /// The EAP method Type of a Request or Response.
    pub open spec fn method(self) -> Option<u8> {
        if self.data.len() == 0 {
            None
        } else {
            Some(self.data[0])
        }
    }

    /// The op-code of an MSCHAPv2 Request or Response.
    pub open spec fn opcode(self) -> Option<u8> {
        if self.data.len() < 2 {
            None
        } else {
            Some(self.data[1])
        }
    }
}

impl EapPacket {
    /// Parse the packet `body` opens with.
    pub fn parse(body: &[u8]) -> (packet: Result<EapPacket, IkeError>)
        ensures
            viewed(packet) == Packet::read(body@),
    {
        if body.len() < 4 {
            return Err(IkeError::Truncated { need: 4, have: body.len() });
        }
        let length: usize = bytes::get16(body, 2) as usize;
        if length < 4 || length > body.len() {
            return Err(IkeError::BadLength { declared: length, available: body.len() });
        }
        Ok(
            EapPacket {
                code: body[0],
                identifier: body[1],
                data: bytes::copy(bytes::range(body, 4, length)),
            },
        )
    }

    /// Serialize the packet.
    pub fn to_bytes(&self) -> (out: Vec<u8>)
        ensures
            out@ == self@.octets(),
    {
        let mut out: Vec<u8> = Vec::new();
        out.push(self.code);
        out.push(self.identifier);
        bytes::push16(&mut out, message::length16(self.data.len(), 4));
        bytes::push_all(&mut out, &self.data);
        assert(out@ =~= self@.octets());
        out
    }

    /// The EAP method Type (first data octet) for a Request/Response.
    pub fn eap_type(&self) -> (method: Option<u8>)
        ensures
            method == self@.method(),
    {
        if self.data.len() == 0 {
            None
        } else {
            Some(self.data[0])
        }
    }

    /// The op-code (second data octet) of an MSCHAPv2 Request/Response.
    pub(crate) fn op(&self) -> (op: Option<u8>)
        ensures
            op == self@.opcode(),
    {
        if self.data.len() < 2 {
            None
        } else {
            Some(self.data[1])
        }
    }
}

/// Reading the wire form of an EAP packet gives it back, whatever pads it.
pub proof fn law_packet_round_trip(packet: Packet, padding: Seq<u8>)
    requires
        4 + packet.data.len() < 0x1_0000,
    ensures
        Packet::read(packet.octets() + padding) == Ok::<Packet, Failure>(packet),
{
    let wire = packet.octets() + padding;
    let length = message::field16(4 + packet.data.len());
    assert(wire.subrange(2, 4) =~= bytes::be16(length));
    bytes::lemma_at16_be16(wire, 2, length);
    assert(wire.subrange(4, length as int) =~= packet.data);
}

/// The fields that open MSCHAPv2 method-data: Type, OpCode, MS-CHAPv2-ID and
/// MS-Length, which counts from the OpCode on.
pub open spec fn ms_header(op: u8, mschap_id: u8, ms_len: nat) -> Seq<u8> {
    seq![eap_type::MSCHAPV2, op, mschap_id] + bytes::be16(message::field16(ms_len))
}

/// Whether the MS-Length of MSCHAPv2 method-data is what it counts: everything
/// from the OpCode on, which is the EAP Length minus 5.
pub open spec fn ms_length_holds(data: Seq<u8>) -> bool {
    data.len() >= 5 && bytes::at16(data, 3) == data.len() - 1
}

/// Whether the MS-Length of MSCHAPv2 method-data is what it counts.
fn ms_length_fits(data: &[u8]) -> (fits: bool)
    ensures
        fits == ms_length_holds(data@),
{
    data.len() >= 5 && bytes::get16(data, 3) as usize == data.len() - 1
}

/// The method-data of a Challenge.
pub open spec fn challenge_data(mschap_id: u8, challenge: Seq<u8>, name: Seq<u8>) -> Seq<u8> {
    ms_header(op::CHALLENGE, mschap_id, 21 + name.len()) + seq![16u8] + challenge + name
}

/// Append the fields that open MSCHAPv2 method-data.
fn push_ms_header(out: &mut Vec<u8>, op: u8, mschap_id: u8, len: usize, more: usize)
    requires
        more < 0x1_0000,
    ensures
        final(out)@ == old(out)@ + ms_header(op, mschap_id, (len + more) as nat),
{
    out.push(eap_type::MSCHAPV2);
    out.push(op);
    out.push(mschap_id);
    bytes::push16(out, message::length16(len, more));
    assert(out@ =~= old(out)@ + ms_header(op, mschap_id, (len + more) as nat));
}

/// Build the EAP-MSCHAPv2 **Challenge** method-data (server → peer): the
/// authenticator challenge + a server name.
pub fn build_challenge(mschap_id: u8, challenge: &[u8; 16], name: &[u8]) -> (out: Vec<u8>)
    ensures
        out@ == challenge_data(mschap_id, challenge@, name@),
{
    let mut out: Vec<u8> = Vec::new();
    push_ms_header(&mut out, op::CHALLENGE, mschap_id, name.len(), 21);
    out.push(16);  // Value-Size
    bytes::push_all(&mut out, challenge);
    bytes::push_all(&mut out, name);
    assert(out@ =~= challenge_data(mschap_id, challenge@, name@));
    out
}

/// What an EAP-MSCHAPv2 Challenge holds: its MS-CHAPv2-ID, the challenge and the
/// server's name. Its MS-Length fits and its Value-Size is 16.
pub open spec fn read_challenge(data: Seq<u8>) -> Result<(u8, Seq<u8>, Seq<u8>), Failure> {
    if data.len() < 22 || data[0] != eap_type::MSCHAPV2 || data[1] != op::CHALLENGE || !ms_length_holds(data) || data[5]
        != 16 {
        Err(Failure::Crypto("not an EAP-MSCHAPv2 Challenge"@))
    } else {
        Ok((data[2], data.subrange(6, 22), bytes::from(data, 22)))
    }
}

/// A Challenge taken by its view.
pub open spec fn viewed_challenge(result: Result<(u8, [u8; 16], Vec<u8>), IkeError>) -> Result<
    (u8, Seq<u8>, Seq<u8>),
    Failure,
> {
    match result {
        Ok((id, challenge, name)) => Ok((id, challenge@, name@)),
        Err(error) => Err(error@),
    }
}

/// Parse an EAP-MSCHAPv2 Challenge, returning (mschap_id, challenge, name). Its
/// MS-Length is the EAP Length minus 5 and its Value-Size is 16
/// (draft-kamath-pppext-eap-mschapv2 §2.1); another is none.
pub fn parse_challenge(data: &[u8]) -> (out: Result<(u8, [u8; 16], Vec<u8>), IkeError>)
    ensures
        viewed_challenge(out) == read_challenge(data@),
{
    if data.len() < 22 || data[0] != eap_type::MSCHAPV2 || data[1] != op::CHALLENGE || !ms_length_fits(data) || data[5]
        != 16 {
        return Err(IkeError::Crypto("not an EAP-MSCHAPv2 Challenge"));
    }
    Ok((data[2], bytes::array16(data, 6), bytes::copy(bytes::tail(data, 22))))
}

/// The method-data of a Response.
pub open spec fn response_data(mschap_id: u8, peer_challenge: Seq<u8>, nt_response: Seq<u8>, user: Seq<u8>) -> Seq<u8> {
    ms_header(op::RESPONSE, mschap_id, 54 + user.len()) + seq![49u8] + peer_challenge + bytes::zeros(8) + nt_response
        + seq![0u8] + user
}

/// Build the EAP-MSCHAPv2 **Response** method-data (peer → server): computes the
/// NT-Response from the challenge + credentials.
pub fn build_response(
    mschap_id: u8,
    authenticator_challenge: &[u8; 16],
    peer_challenge: &[u8; 16],
    user: &[u8],
    password: &str,
) -> (out: Vec<u8>)
    ensures
        out@ == response_data(
            mschap_id,
            peer_challenge@,
            mschapv2::nt_response(authenticator_challenge@, peer_challenge@, user@, password@),
            user@,
        ),
{
    let nt = generate_nt_response(authenticator_challenge, peer_challenge, user, password);
    let mut out: Vec<u8> = Vec::new();
    push_ms_header(&mut out, op::RESPONSE, mschap_id, user.len(), 54);
    out.push(49);  // Value-Size
    bytes::push_all(&mut out, peer_challenge);
    bytes::push_zeros(&mut out, 8);  // Reserved
    bytes::push_all(&mut out, &nt);
    out.push(0);  // Flags
    bytes::push_all(&mut out, user);
    assert(out@ =~= response_data(mschap_id, peer_challenge@, nt@, user@));
    out
}

/// Parsed EAP-MSCHAPv2 Response.
#[derive(Debug, Clone, PartialEq, Eq)]
pub struct Response {
    pub mschap_id: u8,
    pub peer_challenge: [u8; 16],
    pub nt_response: [u8; 24],
    pub name: Vec<u8>,
}

/// A [`Response`] as a value of the specification.
#[verifier::ext_equal]
pub struct Responded {
    pub mschap_id: u8,
    pub peer_challenge: Seq<u8>,
    pub nt_response: Seq<u8>,
    pub name: Seq<u8>,
}

impl View for Response {
    type V = Responded;

    open spec fn view(&self) -> Responded {
        Responded {
            mschap_id: self.mschap_id,
            peer_challenge: self.peer_challenge@,
            nt_response: self.nt_response@,
            name: self.name@,
        }
    }
}

impl Responded {
    /// What an EAP-MSCHAPv2 Response holds. Its MS-Length fits and its Value-Size
    /// is 49.
    pub open spec fn read(data: Seq<u8>) -> Result<Responded, Failure> {
        if data.len() < 55 || data[0] != eap_type::MSCHAPV2 || data[1] != op::RESPONSE || !ms_length_holds(data)
            || data[5] != 49 {
            Err(Failure::Crypto("not an EAP-MSCHAPv2 Response"@))
        } else {
            Ok(
                Responded {
                    mschap_id: data[2],
                    peer_challenge: data.subrange(6, 22),
                    nt_response: data.subrange(30, 54),
                    name: bytes::from(data, 55),
                },
            )
        }
    }
}

/// Parse an EAP-MSCHAPv2 Response. Its MS-Length is the EAP Length minus 5 and its
/// Value-Size is 49 (draft-kamath-pppext-eap-mschapv2 §2.2); another is none.
pub fn parse_response(data: &[u8]) -> (out: Result<Response, IkeError>)
    ensures
        viewed(out) == Responded::read(data@),
{
    if data.len() < 55 || data[0] != eap_type::MSCHAPV2 || data[1] != op::RESPONSE || !ms_length_fits(data) || data[5]
        != 49 {
        return Err(IkeError::Crypto("not an EAP-MSCHAPv2 Response"));
    }
    Ok(
        Response {
            mschap_id: data[2],
            peer_challenge: bytes::array16(data, 6),
            nt_response: bytes::array24(data, 30),
            name: bytes::copy(bytes::tail(data, 55)),
        },
    )
}

/// What a Response comes to against the stored password and the challenge it
/// answers: the authenticator response, as text.
pub open spec fn verified_response(authenticator_challenge: Seq<u8>, data: Seq<u8>, password: Seq<char>) -> Result<
    Seq<char>,
    Failure,
> {
    match Responded::read(data) {
        Err(failure) => Err(failure),
        Ok(resp) => if resp.nt_response != mschapv2::nt_response(
            authenticator_challenge,
            resp.peer_challenge,
            resp.name,
            password,
        ) {
            Err(Failure::AuthFailed)
        } else {
            Ok(
                mschapv2::server_text(
                    password,
                    resp.nt_response,
                    resp.peer_challenge,
                    authenticator_challenge,
                    resp.name,
                ),
            )
        },
    }
}

/// Server side: verify a Response against the stored password and the challenge
/// we sent. On success returns the authenticator response string (`"S=<hex>"`)
/// for the MSCHAPv2 Success message; on mismatch returns [`IkeError::AuthFailed`].
pub fn verify_response(authenticator_challenge: &[u8; 16], response_data: &[u8], password: &str) -> (out: Result<
    String,
    IkeError,
>)
    ensures
        viewed(out) == verified_response(authenticator_challenge@, response_data@, password@),
{
    let resp = match parse_response(response_data) {
        Ok(resp) => resp,
        Err(error) => {
            return Err(error);
        },
    };
    let expected = generate_nt_response(authenticator_challenge, &resp.peer_challenge, &resp.name, password);
    if !bytes::same(&expected, &resp.nt_response) {
        return Err(IkeError::AuthFailed);
    }
    Ok(
        generate_authenticator_response(
            password,
            &resp.nt_response,
            &resp.peer_challenge,
            authenticator_challenge,
            &resp.name,
        ),
    )
}

/// The method-data of a Success.
pub open spec fn success_data(mschap_id: u8, message: Seq<char>) -> Seq<u8> {
    ms_header(op::SUCCESS, mschap_id, 4 + encode_utf8(message).len()) + encode_utf8(message)
}

/// Build the EAP-MSCHAPv2 **Success** method-data (server → peer): `"S=<hex>"`.
pub fn build_success(mschap_id: u8, auth_response: &str) -> (out: Vec<u8>)
    ensures
        out@ == success_data(mschap_id, auth_response@),
{
    let message: &[u8] = auth_response.as_bytes();
    let mut out: Vec<u8> = Vec::new();
    push_ms_header(&mut out, op::SUCCESS, mschap_id, message.len(), 4);
    bytes::push_all(&mut out, message);
    out
}

/// The value of a hexadecimal digit, in either case.
pub open spec fn digit_value(digit: u8) -> Option<int> {
    if 0x30 <= digit <= 0x39 {
        Some(digit - 0x30)
    } else if 0x41 <= digit <= 0x46 {
        Some(digit - 0x41 + 10)
    } else if 0x61 <= digit <= 0x66 {
        Some(digit - 0x61 + 10)
    } else {
        None
    }
}

/// Whether `digits` are hexadecimal digits.
pub open spec fn all_digits(digits: Seq<u8>) -> bool {
    forall|i: int| 0 <= i < digits.len() ==> digit_value(#[trigger] digits[i]) is Some
}

/// The octets pairs of hexadecimal digits write.
pub open spec fn unhex(digits: Seq<u8>) -> Seq<u8> {
    Seq::new(
        digits.len() / 2,
        |i: int| (digit_value(digits[2 * i]).unwrap() * 16 + digit_value(digits[2 * i + 1]).unwrap()) as u8,
    )
}

/// The authenticator response the message of an EAP-MSCHAPv2 Success opens with. Its
/// MS-Length fits.
pub open spec fn read_success(data: Seq<u8>) -> Result<Seq<u8>, Failure> {
    let bad = Failure::Crypto("not an EAP-MSCHAPv2 Success with an authenticator response"@);
    if data.len() < 47 || data[0] != eap_type::MSCHAPV2 || data[1] != op::SUCCESS || !ms_length_holds(data) || data[5]
        != 0x53 || data[6] != 0x3d || !all_digits(data.subrange(7, 47)) {
        Err(bad)
    } else {
        Ok(unhex(data.subrange(7, 47)))
    }
}

/// An authenticator response with its error taken by its view.
pub open spec fn viewed_proof(result: Result<[u8; 20], IkeError>) -> Result<Seq<u8>, Failure> {
    match result {
        Ok(octets) => Ok(octets@),
        Err(error) => Err(error@),
    }
}

/// The value of a hexadecimal digit, in either case.
fn nibble(digit: u8) -> (value: Option<u8>)
    ensures
        match value {
            Some(value) => digit_value(digit) == Some(value as int) && value < 16,
            None => digit_value(digit) is None,
        },
{
    if 0x30 <= digit && digit <= 0x39 {
        Some(digit - 0x30)
    } else if 0x41 <= digit && digit <= 0x46 {
        Some(digit - 0x41 + 10)
    } else if 0x61 <= digit && digit <= 0x66 {
        Some(digit - 0x61 + 10)
    } else {
        None
    }
}

/// Parse an EAP-MSCHAPv2 **Success** Request (server → peer), returning the
/// authenticator response its message opens with: `"S="` and the 20 octets
/// as 40 hex digits (RFC 2759 §8.7, draft-kamath-pppext-eap-mschapv2 §2.3).
/// The digits are read in either case -- they are a number. What follows
/// them, normally `" M=<message>"`, is not read. The MS-Length is the EAP Length
/// minus 5.
pub fn parse_success(data: &[u8]) -> (out: Result<[u8; 20], IkeError>)
    ensures
        viewed_proof(out) == read_success(data@),
{
    if data.len() < 47 || data[0] != eap_type::MSCHAPV2 || data[1] != op::SUCCESS || !ms_length_fits(data) || data[5]
        != 0x53 || data[6] != 0x3d {
        return Err(IkeError::Crypto("not an EAP-MSCHAPv2 Success with an authenticator response"));
    }
    let digits: &[u8] = bytes::range(data, 7, 47);
    let mut out: [u8; 20] = [0; 20];
    for i in 0..20usize
        invariant
            data@.len() >= 47,
            ms_length_holds(data@),
            data@[0] == eap_type::MSCHAPV2 && data@[1] == op::SUCCESS && data@[5] == 0x53 && data@[6] == 0x3d,
            digits@ == data@.subrange(7, 47),
            forall|j: int| 0 <= j < 2 * i ==> digit_value(#[trigger] digits@[j]) is Some,
            forall|j: int| 0 <= j < i ==> out@[j] == unhex(digits@)[j],
    {
        match (nibble(digits[2 * i]), nibble(digits[2 * i + 1])) {
            (Some(high), Some(low)) => {
                out[i] = high * 16 + low;
                assert(out@[i as int] == unhex(digits@)[i as int]);
            },
            _ => {
                assert(!all_digits(digits@));
                return Err(IkeError::Crypto("not an EAP-MSCHAPv2 Success with an authenticator response"));
            },
        }
    }
    assert(out@ =~= unhex(digits@));
    Ok(out)
}

/// Method-data that opens with the fields its length asks for has an MS-Length that
/// fits.
proof fn lemma_ms_length(data: Seq<u8>, op: u8, mschap_id: u8)
    requires
        5 <= data.len() <= 0x1_0000,
        data.take(5) == ms_header(op, mschap_id, (data.len() - 1) as nat),
    ensures
        ms_length_holds(data),
{
    let length = message::field16((data.len() - 1) as nat);
    assert(data.subrange(3, 5) =~= data.take(5).subrange(3, 5));
    assert(data.take(5).subrange(3, 5) =~= bytes::be16(length));
    bytes::lemma_at16_be16(data, 3, length);
}

/// A Challenge reads back as what it was built from, when its MS-Length can count it.
pub proof fn law_challenge_round_trip(mschap_id: u8, challenge: Seq<u8>, name: Seq<u8>)
    requires
        challenge.len() == 16,
        21 + name.len() < 0x1_0000,
    ensures
        read_challenge(challenge_data(mschap_id, challenge, name)) == Ok::<(u8, Seq<u8>, Seq<u8>), Failure>(
            (mschap_id, challenge, name),
        ),
{
    let data = challenge_data(mschap_id, challenge, name);
    assert(data.take(5) =~= ms_header(op::CHALLENGE, mschap_id, 21 + name.len()));
    lemma_ms_length(data, op::CHALLENGE, mschap_id);
    assert(data.subrange(6, 22) =~= challenge);
    assert(bytes::from(data, 22) =~= name);
}

/// A Response reads back as what it was built from, when its MS-Length can count it.
pub proof fn law_response_round_trip(mschap_id: u8, peer_challenge: Seq<u8>, nt_response: Seq<u8>, user: Seq<u8>)
    requires
        peer_challenge.len() == 16,
        nt_response.len() == 24,
        54 + user.len() < 0x1_0000,
    ensures
        Responded::read(response_data(mschap_id, peer_challenge, nt_response, user)) == Ok::<Responded, Failure>(
            (Responded { mschap_id, peer_challenge, nt_response, name: user }),
        ),
{
    let data = response_data(mschap_id, peer_challenge, nt_response, user);
    assert(data.take(5) =~= ms_header(op::RESPONSE, mschap_id, 54 + user.len()));
    lemma_ms_length(data, op::RESPONSE, mschap_id);
    assert(data.subrange(6, 22) =~= peer_challenge);
    assert(data.subrange(30, 54) =~= nt_response);
    assert(bytes::from(data, 55) =~= user);
}

/// The Response built from a password verifies against that password, when its
/// MS-Length can count it.
pub proof fn law_response_verifies(
    mschap_id: u8,
    authenticator_challenge: Seq<u8>,
    peer_challenge: Seq<u8>,
    user: Seq<u8>,
    password: Seq<char>,
)
    requires
        peer_challenge.len() == 16,
        54 + user.len() < 0x1_0000,
    ensures
        ({
            let nt = mschapv2::nt_response(authenticator_challenge, peer_challenge, user, password);
            verified_response(
                authenticator_challenge,
                response_data(mschap_id, peer_challenge, nt, user),
                password,
            ) == Ok::<Seq<char>, Failure>(
                mschapv2::server_text(password, nt, peer_challenge, authenticator_challenge, user),
            )
        }),
{
    let nt = mschapv2::nt_response(authenticator_challenge, peer_challenge, user, password);
    law_response_round_trip(mschap_id, peer_challenge, nt, user);
}

proof fn lemma_hex_digit(value: int)
    requires
        0 <= value < 16,
    ensures
        digit_value(text::hex_digit(value) as u8) == Some(value),
        text::hex_digit(value) as u32 <= 0x7f,
{
}

/// The Success that carries an authenticator response reads back as that response.
pub proof fn law_success_round_trip(mschap_id: u8, octets: Seq<u8>)
    requires
        octets.len() == 20,
    ensures
        read_success(success_data(mschap_id, "S="@ + text::hex(octets))) == Ok::<Seq<u8>, Failure>(octets),
        success_data(mschap_id, "S="@ + text::hex(octets)).len() == 47,
{
    let message = "S="@ + text::hex(octets);
    reveal_strlit("S=");
    assert forall|i: int| 0 <= i < message.len() implies (#[trigger] message[i]) as u32 <= 0x7f by {
        if i >= 2 {
            let k = i - 2;
            lemma_hex_digit(octets[k / 2] as int / 16);
            lemma_hex_digit(octets[k / 2] as int % 16);
        }
    }
    vstd::utf8::is_ascii_chars_encode_utf8(message);
    let wire = encode_utf8(message);
    let data = success_data(mschap_id, message);
    assert(wire.len() == 42);
    assert(data.take(5) =~= ms_header(op::SUCCESS, mschap_id, 46));
    lemma_ms_length(data, op::SUCCESS, mschap_id);
    let digits = data.subrange(7, 47);
    assert forall|i: int| 0 <= i < 40 implies digit_value(#[trigger] digits[i]) == Some(
        if i % 2 == 0 {
            octets[i / 2] as int / 16
        } else {
            octets[i / 2] as int % 16
        },
    ) by {
        assert(digits[i] == wire[i + 2]);
        assert(wire[i + 2] == message[i + 2] as u8);
        lemma_hex_digit(octets[i / 2] as int / 16);
        lemma_hex_digit(octets[i / 2] as int % 16);
    }
    assert(unhex(digits) =~= octets) by {
        assert forall|i: int| 0 <= i < 20 implies unhex(digits)[i] == octets[i] by {
            assert((2 * i) / 2 == i && (2 * i + 1) / 2 == i);
            assert(digit_value(digits[2 * i]) is Some);
            assert(digit_value(digits[2 * i + 1]) is Some);
        }
    }
    assert(data[5] == wire[0] && data[6] == wire[1]);
}

} // verus!
