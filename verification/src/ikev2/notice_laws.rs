//! Laws of what an SA's own exchanges carry: which notifies and deletes are heard, which
//! method signs, how an IV is filled up, and which socket a message leaves by.

use crate::error::Failure;
use crate::ikev2::client::{Client, Socket};
use crate::ikev2::ike_auth::{accepted_method, signing_method, KeyKind};
use crate::ikev2::informational::deleted;
use crate::ikev2::message::PayloadType;
use crate::ikev2::mobike;
use crate::ikev2::payload::basic;
use crate::ikev2::payload::basic::{Deleted, Notice};
use crate::ikev2::sk;
use vstd::prelude::*;

verus! {

/// A notify is heard among payloads exactly if one of them is a Notify of that number,
/// wherever it stands and whatever else it holds.
pub proof fn law_notify_is_heard_anywhere(
    before: Seq<(PayloadType, Seq<u8>)>,
    notice: Notice,
    behind: Seq<(PayloadType, Seq<u8>)>,
    number: u16,
)
    requires
        notice.spi.len() < 0x100,
    ensures
        mobike::notifies(before + seq![(PayloadType::Notify, notice.octets())] + behind, number) <==> (notice.notify_type
            == number || mobike::notifies(before, number) || mobike::notifies(behind, number)),
        !mobike::notifies(Seq::empty(), number),
{
    let all = before + seq![(PayloadType::Notify, notice.octets())] + behind;
    basic::law_notify_round_trip(notice);
    let n = before.len() as int;
    assert(all[n] == (PayloadType::Notify, notice.octets()));
    if notice.notify_type == number {
        assert(mobike::is_notify(all[n], number));
    }
    if mobike::notifies(before, number) {
        let i = choose|i: int| 0 <= i < before.len() && mobike::is_notify(#[trigger] before[i], number);
        assert(all[i] == before[i]);
    }
    if mobike::notifies(behind, number) {
        let i = choose|i: int| 0 <= i < behind.len() && mobike::is_notify(#[trigger] behind[i], number);
        assert(all[n + 1 + i] == behind[i]);
    }
    if mobike::notifies(all, number) {
        let i = choose|i: int| 0 <= i < all.len() && mobike::is_notify(#[trigger] all[i], number);
        if i < n {
            assert(all[i] == before[i]);
        } else if i > n {
            assert(all[i] == behind[i - n - 1]);
        }
    }
}

/// A payload that is no Notify notifies nothing, whatever its octets are.
pub proof fn law_only_notifies_notify(payload: (PayloadType, Seq<u8>), number: u16)
    ensures
        payload.0 != PayloadType::Notify ==> !mobike::notifies(seq![payload], number),
{
}

/// A notify without data: protocol 0, no SPI, and its number.
pub proof fn law_bare_notice(number: u16)
    ensures
        mobike::bare_notice(number).octets() =~= seq![0, 0, (number / 256) as u8, (number % 256) as u8],
{
}

/// Deletes are listed in the order of their payloads: a Delete behind other payloads is
/// listed behind theirs, what is no Delete adds nothing, and one malformed Delete makes
/// the list fail.
pub proof fn law_deletes_are_listed_in_order(payloads: Seq<(PayloadType, Seq<u8>)>, next: (PayloadType, Seq<u8>))
    ensures
        deleted(Seq::empty(), 0) == Ok::<Seq<Deleted>, Failure>(Seq::empty()),
        match deleted(payloads, 0) {
            Err(failure) => deleted(payloads.push(next), 0) == Err::<Seq<Deleted>, Failure>(failure),
            Ok(list) => if next.0 != PayloadType::Delete {
                deleted(payloads.push(next), 0) == Ok::<Seq<Deleted>, Failure>(list)
            } else {
                match Deleted::read(next.1) {
                    Err(failure) => deleted(payloads.push(next), 0) == Err::<Seq<Deleted>, Failure>(failure),
                    Ok(delete) => deleted(payloads.push(next), 0) == Ok::<Seq<Deleted>, Failure>(list.push(delete)),
                }
            },
        },
{
    lemma_deleted_push(payloads, next, 0);
}

proof fn lemma_deleted_push(payloads: Seq<(PayloadType, Seq<u8>)>, next: (PayloadType, Seq<u8>), from: int)
    requires
        0 <= from <= payloads.len(),
    ensures
        match deleted(payloads, from) {
            Err(failure) => deleted(payloads.push(next), from) == Err::<Seq<Deleted>, Failure>(failure),
            Ok(list) => if next.0 != PayloadType::Delete {
                deleted(payloads.push(next), from) == Ok::<Seq<Deleted>, Failure>(list)
            } else {
                match Deleted::read(next.1) {
                    Err(failure) => deleted(payloads.push(next), from) == Err::<Seq<Deleted>, Failure>(failure),
                    Ok(delete) => deleted(payloads.push(next), from) == Ok::<Seq<Deleted>, Failure>(list.push(delete)),
                }
            },
        },
    decreases payloads.len() - from,
{
    let all = payloads.push(next);
    if from < payloads.len() {
        lemma_deleted_push(payloads, next, from + 1);
        assert(all[from] == payloads[from]);
        if payloads[from].0 == PayloadType::Delete {
            if let Ok(delete) = Deleted::read(payloads[from].1) {
                if let Ok(rest) = deleted(payloads, from + 1) {
                    assert(deleted(payloads, from) == Ok::<Seq<Deleted>, Failure>(seq![delete] + rest));
                    if next.0 == PayloadType::Delete {
                        if let Ok(last) = Deleted::read(next.1) {
                            assert((seq![delete] + rest).push(last) =~= seq![delete] + rest.push(last));
                        }
                    }
                }
            }
        }
    } else {
        reveal_with_fuel(deleted, 2);
        assert(all[from] == next);
        if next.0 == PayloadType::Delete {
            if let Ok(last) = Deleted::read(next.1) {
                assert(seq![last] + Seq::<Deleted>::empty() =~= Seq::<Deleted>::empty().push(last));
            }
        }
    }
}

/// A peer that takes SHA-256 signatures gets method 14, whichever key signs; another
/// gets method 9 of an elliptic-curve key and method 1 of an RSA key. Those three are
/// the methods taken from a peer.
pub proof fn law_signing_method(hashes: Seq<u16>, method: u8)
    ensures
        hashes.contains(2) ==> signing_method(KeyKind::EcdsaP256, hashes) == 14 && signing_method(KeyKind::Rsa, hashes)
            == 14,
        !hashes.contains(2) ==> signing_method(KeyKind::EcdsaP256, hashes) == 9 && signing_method(KeyKind::Rsa, hashes)
            == 1,
        accepted_method(method) <==> method == 1 || method == 9 || method == 14,
{
}

/// The IV of a classic cipher is its seed, and the seed once more in a block of twice
/// its length.
pub proof fn law_iv_repeats_its_seed(seed: Seq<u8>)
    requires
        seed.len() == 8,
    ensures
        sk::expanded_iv(seed, 8) == seed,
        sk::expanded_iv(seed, 16) == seed + seed,
{
    assert(sk::expanded_iv(seed, 8) =~= seed);
    assert(sk::expanded_iv(seed, 16) =~= seed + seed);
}

/// Before the exchange floats, a message leaves by the well-known socket, whether there
/// is another or not; from then on only by the other, and by none where there is none.
pub proof fn law_socket_follows_the_float(natt: bool)
    ensures
        (Client { natt }).routed(false) == Ok::<Socket, Failure>(Socket::Ike),
        natt ==> (Client { natt }).routed(true) == Ok::<Socket, Failure>(Socket::Natt),
        !natt ==> (Client { natt }).routed(true) is Err,
{
}

} // verus!
