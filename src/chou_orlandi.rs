//! The Chou–Orlandi base OT, one message pair at a time, as the steps each
//! party takes between two messages on the wire.
//!
//! The sender picks a scalar `a` and sends `A = a * P`; the receiver picks a
//! scalar `b` and answers `B = b * P`, or `B = A + b * P` to choose the
//! second message; the sender encrypts the first message under the hash of
//! `a * B` and the second under the hash of `a * (B - A)`; the receiver
//! decrypts the one it chose under the hash of `b * A`.

use crate::bits::slice_of;
use crate::crypto::{decrypt, ecb_seal, encrypt, hash_pt, point_key, random_bytes, KEY_SIZE};
use crate::wire::Stream;
use crate::error::OtError;
use crate::group::{
    base_mul, point_add, point_decodes, point_mul, point_sub, ristretto_add, ristretto_base_mul,
    ristretto_decodes, ristretto_mul, ristretto_sub, POINT_SIZE,
};
use vstd::prelude::*;

verus! {

/// The point the receiver answers with for its choice.
pub open spec fn receiver_point(choice: bool, b: Seq<u8>, big_a: Seq<u8>) -> Seq<u8> {
    if choice {
        ristretto_add(big_a, ristretto_base_mul(b))
    } else {
        ristretto_base_mul(b)
    }
}

/// The key under which the sender encrypts message 0 or message 1.
pub open spec fn sender_key(which: bool, a: Seq<u8>, big_a: Seq<u8>, big_b: Seq<u8>) -> Seq<u8> {
    if which {
        point_key(ristretto_mul(ristretto_sub(big_b, big_a), a))
    } else {
        point_key(ristretto_mul(big_b, a))
    }
}

/// The sender's first message: `A = a * P`.
pub fn sender_announce(a: &Vec<u8>) -> (big_a: Vec<u8>)
    requires
        a@.len() == POINT_SIZE,
    ensures
        big_a@ == ristretto_base_mul(a@),
        big_a@.len() == POINT_SIZE,
        ristretto_decodes(big_a@),
{
    base_mul(a)
}

/// The receiver's answer to `A` for choice `choice` (0 or 1) and scalar `b`:
/// the point `B` and the key it will decrypt with.
pub fn receiver_reply(choice: u16, b: &Vec<u8>, big_a: &Vec<u8>) -> (r: Result<
    (Vec<u8>, Vec<u8>),
    OtError,
>)
    requires
        b@.len() == POINT_SIZE,
        big_a@.len() == POINT_SIZE,
    ensures
        choice > 1 ==> r is Err && r->Err_0 == OtError::InvalidInput,
        choice <= 1 && !ristretto_decodes(big_a@) ==> r is Err && r->Err_0
            == OtError::InvalidEncoding,
        choice <= 1 && ristretto_decodes(big_a@) ==> r is Ok,
        r matches Ok((big_b, key)) ==> big_b@ == receiver_point(choice == 1, b@, big_a@)
            && big_b@.len() == POINT_SIZE && key@ == point_key(ristretto_mul(big_a@, b@))
            && key@.len() == KEY_SIZE,
{
    if choice > 1 {
        return Err(OtError::InvalidInput);
    }
    if !point_decodes(big_a) {
        return Err(OtError::InvalidEncoding);
    }
    let bp = base_mul(b);
    let big_b = if choice == 1 {
        match point_add(big_a, &bp) {
            Some(p) => p,
            None => {
                return Err(OtError::InvalidEncoding);
            },
        }
    } else {
        bp
    };
    let shared = match point_mul(big_a, b) {
        Some(p) => p,
        None => {
            return Err(OtError::InvalidEncoding);
        },
    };
    let key = hash_pt(&shared);
    Ok((big_b, key))
}

/// The sender's answer to `B`, given its own `A`: message 0 encrypted under the hash of
/// `a * B` and message 1 under the hash of `a * (B - A)`.
pub fn sender_encrypt(
    a: &Vec<u8>,
    big_a: &Vec<u8>,
    big_b: &Vec<u8>,
    m0: &Vec<u8>,
    m1: &Vec<u8>,
) -> (r: Result<(Vec<u8>, Vec<u8>), OtError>)
    requires
        a@.len() == POINT_SIZE,
        big_a@.len() == POINT_SIZE,
        big_b@.len() == POINT_SIZE,
        m0@.len() == m1@.len(),
    ensures
        !(ristretto_decodes(big_a@) && ristretto_decodes(big_b@)) ==> r is Err && r->Err_0
            == OtError::InvalidEncoding,
        ristretto_decodes(big_a@) && ristretto_decodes(big_b@) ==> r is Ok,
        r matches Ok((c0, c1)) ==> c0@ == ecb_seal(sender_key(false, a@, big_a@, big_b@), m0@)
            && c1@ == ecb_seal(sender_key(true, a@, big_a@, big_b@), m1@) && c0@.len() == (
        m0@.len() / 16 + 1) * 16 && c1@.len() == c0@.len(),
{
    let p0 = match point_mul(big_b, a) {
        Some(p) => p,
        None => {
            return Err(OtError::InvalidEncoding);
        },
    };
    let diff = match point_sub(big_b, big_a) {
        Some(p) => p,
        None => {
            return Err(OtError::InvalidEncoding);
        },
    };
    let p1 = match point_mul(&diff, a) {
        Some(p) => p,
        None => {
            return Err(OtError::InvalidEncoding);
        },
    };
    let k0 = hash_pt(&p0);
    let k1 = hash_pt(&p1);
    let c0 = match encrypt(&k0, m0) {
        Ok(c) => c,
        Err(e) => {
            return Err(e);
        },
    };
    let c1 = match encrypt(&k1, m1) {
        Ok(c) => c,
        Err(e) => {
            return Err(e);
        },
    };
    Ok((c0, c1))
}

/// The receiver's output: the ciphertext its choice selects, decrypted
/// under its key.
pub fn receiver_decrypt(choice: bool, key: &Vec<u8>, c0: &Vec<u8>, c1: &Vec<u8>) -> (r: Result<
    Vec<u8>,
    OtError,
>)
    requires
        key@.len() == KEY_SIZE,
    ensures
        r is Err ==> r->Err_0 == OtError::Crypto,
        forall|p: Seq<u8>|
            (if choice {
                c1@
            } else {
                c0@
            }) == #[trigger] ecb_seal(key@, p) ==> r is Ok && r->Ok_0@ == p,
{
    let c = if choice {
        c1
    } else {
        c0
    };
    decrypt(key, c)
}

/// The sender's first step for one pair: draws the scalar `a` and writes
/// `A = a * P`; returns `a` and `A`.
pub fn send_first(stream: &mut Stream) -> (r: (Vec<u8>, Vec<u8>))
    requires
        old(stream).wf(),
    ensures
        final(stream).wf(),
        r.0@.len() == POINT_SIZE,
        r.1@ == ristretto_base_mul(r.0@),
        r.1@.len() == POINT_SIZE,
        final(stream).written() == old(stream).written() + r.1@,
        final(stream).unread() == old(stream).unread(),
{
    let a = random_bytes(POINT_SIZE);
    let big_a = sender_announce(&a);
    stream.write_pt(&big_a);
    (a, big_a)
}

/// The sender's second step for one pair: reads `B` and writes the two
/// ciphertexts, first that of `m0`, then that of `m1`.
pub fn send_second(
    stream: &mut Stream,
    a: &Vec<u8>,
    big_a: &Vec<u8>,
    m0: &Vec<u8>,
    m1: &Vec<u8>,
) -> (r: Result<(), OtError>)
    requires
        old(stream).wf(),
        a@.len() == POINT_SIZE,
        big_a@.len() == POINT_SIZE,
        m0@.len() == m1@.len(),
    ensures
        final(stream).wf(),
        ({
            let u = old(stream).unread();
            let bb = u.subrange(0, 32);
            &&& u.len() < 32 ==> r is Err && r->Err_0 == OtError::Io && final(stream).written()
                == old(stream).written() && final(stream).unread() == u
            &&& u.len() >= 32 ==> final(stream).unread() == u.subrange(32, u.len() as int)
            &&& u.len() >= 32 && !(ristretto_decodes(big_a@) && ristretto_decodes(bb)) ==> r is Err
                && r->Err_0 == OtError::InvalidEncoding && final(stream).written() == old(stream).written()
            &&& u.len() >= 32 && ristretto_decodes(big_a@) && ristretto_decodes(bb) ==> r is Ok
                && final(stream).written() == old(stream).written() + ecb_seal(
                sender_key(false, a@, big_a@, bb),
                m0@,
            ) + ecb_seal(sender_key(true, a@, big_a@, bb), m1@)
        }),
{
    let big_b = stream.read_pt()?;
    let (c0, c1) = sender_encrypt(a, big_a, &big_b, m0, m1)?;
    stream.write_bytes(&c0);
    stream.write_bytes(&c1);
    Ok(())
}

/// The receiver's first step for one pair: reads `A`, draws the scalar `b`
/// and writes `B` for its choice (0 or 1); returns the key it will decrypt
/// with.
pub fn receive_first(stream: &mut Stream, choice: u16) -> (r: Result<Vec<u8>, OtError>)
    requires
        old(stream).wf(),
    ensures
        final(stream).wf(),
        ({
            let u = old(stream).unread();
            let aa = u.subrange(0, 32);
            &&& choice > 1 ==> r is Err && r->Err_0 == OtError::InvalidInput && final(stream).written()
                == old(stream).written() && final(stream).unread() == u
            &&& choice <= 1 && u.len() < 32 ==> r is Err && r->Err_0 == OtError::Io
                && final(stream).written() == old(stream).written() && final(stream).unread() == u
            &&& choice <= 1 && u.len() >= 32 ==> final(stream).unread() == u.subrange(
                32,
                u.len() as int,
            )
            &&& choice <= 1 && u.len() >= 32 && !ristretto_decodes(aa) ==> r is Err && r->Err_0
                == OtError::InvalidEncoding && final(stream).written() == old(stream).written()
            &&& choice <= 1 && u.len() >= 32 && ristretto_decodes(aa) ==> r is Ok && r->Ok_0@.len()
                == KEY_SIZE && exists|b: Seq<u8>|
                b.len() == POINT_SIZE && r->Ok_0@ == point_key(#[trigger] ristretto_mul(aa, b))
                    && final(stream).written() == old(stream).written() + receiver_point(
                    choice == 1,
                    b,
                    aa,
                )
        }),
{
    if choice > 1 {
        return Err(OtError::InvalidInput);
    }
    let big_a = stream.read_pt()?;
    let b = random_bytes(POINT_SIZE);
    let (big_b, key) = receiver_reply(choice, &b, &big_a)?;
    stream.write_pt(&big_b);
    assert(big_b@ == receiver_point(choice == 1, b@, big_a@));
    Ok(key)
}

/// The receiver's second step for one pair: reads the two ciphertexts of a
/// message of `nbytes` bytes and decrypts the one it chose.
pub fn receive_second(stream: &mut Stream, choice: bool, key: &Vec<u8>, nbytes: usize) -> (r:
    Result<Vec<u8>, OtError>)
    requires
        old(stream).wf(),
        key@.len() == KEY_SIZE,
        nbytes <= usize::MAX / 4,
    ensures
        final(stream).wf(),
        final(stream).written() == old(stream).written(),
        ({
            let u = old(stream).unread();
            let clen = (nbytes / 16 + 1) * 16;
            let c = if choice {
                u.subrange(clen as int, 2 * clen)
            } else {
                u.subrange(0, clen as int)
            };
            &&& u.len() < 2 * clen ==> r is Err && r->Err_0 == OtError::Io && final(stream).unread()
                == u
            &&& u.len() >= 2 * clen ==> final(stream).unread() == u.subrange(
                2 * clen,
                u.len() as int,
            ) && (r is Err ==> r->Err_0 == OtError::Crypto) && forall|p: Seq<u8>|
                c == #[trigger] ecb_seal(key@, p) ==> r is Ok && r->Ok_0@ == p
        }),
{
    let clen = (nbytes / 16 + 1) * 16;
    let ghost u = stream.unread();
    let both = stream.read_bytes(2 * clen)?;
    let c0 = slice_of(&both, 0, clen);
    let c1 = slice_of(&both, clen, 2 * clen);
    assert(c0@ =~= u.subrange(0, clen as int));
    assert(c1@ =~= u.subrange(clen as int, 2 * clen));
    receiver_decrypt(choice, key, &c0, &c1)
}

} // verus!
