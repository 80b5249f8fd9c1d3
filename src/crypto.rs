//! AES-128-ECB with PKCS#7 padding, the correlation-robust hash, the
//! seeded generator and fresh randomness.

use crate::bits::{slice_of, xor, xor_seq};
use crate::error::OtError;
use aes::Aes128;
use block_modes::block_padding::Pkcs7;
use block_modes::{BlockMode, Ecb};
use rand::rngs::StdRng;
use rand::{Rng, SeedableRng};
use vstd::prelude::*;

verus! {

/// Length of an AES-128 key, and of a block.
pub const KEY_SIZE: usize = 16;

/// Length of a seed of the generator.
pub const SEED_LENGTH: usize = 32;

/// The AES-128-ECB encryption, with PKCS#7 padding, of `msg` under `key`.
pub uninterp spec fn ecb_seal(key: Seq<u8>, msg: Seq<u8>) -> Seq<u8>;

/// The first `n` bytes drawn from the generator seeded with `seed`.
pub uninterp spec fn prg_bytes(seed: Seq<u8>, n: nat) -> Seq<u8>;

/// Relies on `Ecb::<Aes128, Pkcs7>::new_from_slices`, which accepts exactly
/// the 16-byte keys, and `encrypt_vec`, which pads to whole 16-byte blocks,
/// adding one to sixteen bytes.
#[verifier::external_body]
fn ecb_encrypt(k: &Vec<u8>, m: &Vec<u8>) -> (r: Option<Vec<u8>>)
    ensures
        r is Some <==> k@.len() == KEY_SIZE,
        r matches Some(c) ==> c@ == ecb_seal(k@, m@) && c@.len() == (m@.len() / 16 + 1) * 16,
{
    match Ecb::<Aes128, Pkcs7>::new_from_slices(k, &[]) {
        Ok(cipher) => Some(cipher.encrypt_vec(m)),
        Err(_) => None,
    }
}

/// Relies on `Ecb::<Aes128, Pkcs7>::new_from_slices` and `decrypt_vec`:
/// a bad key length is refused, and decryption undoes `encrypt_vec` under the
/// same key.
#[verifier::external_body]
fn ecb_decrypt(k: &Vec<u8>, c: &Vec<u8>) -> (r: Result<Vec<u8>, OtError>)
    ensures
        k@.len() != KEY_SIZE ==> r is Err && r->Err_0 == OtError::InvalidInput,
        r is Err ==> (r->Err_0 == OtError::InvalidInput <==> k@.len() != KEY_SIZE),
        r is Err ==> r->Err_0 == OtError::InvalidInput || r->Err_0 == OtError::Crypto,
        forall|p: Seq<u8>|
            k@.len() == KEY_SIZE && c@ == #[trigger] ecb_seal(k@, p) ==> r is Ok && r->Ok_0@ == p,
{
    match Ecb::<Aes128, Pkcs7>::new_from_slices(k, &[]) {
        Ok(cipher) => cipher.decrypt_vec(c).map_err(|_| OtError::Crypto),
        Err(_) => Err(OtError::InvalidInput),
    }
}

/// Relies on `StdRng::from_seed` and `Rng::gen::<u8>`: the bytes drawn
/// depend on the seed alone.
#[verifier::external_body]
fn prg_fill(seed: &Vec<u8>, n: usize) -> (r: Vec<u8>)
    requires
        seed@.len() == SEED_LENGTH,
    ensures
        r@ == prg_bytes(seed@, n as nat),
        r@.len() == n,
{
    let mut key = [0u8; 32];
    key.copy_from_slice(seed);
    let mut rng = StdRng::from_seed(key);
    (0..n).map(|_| rng.gen::<u8>()).collect()
}

/// Relies on `rand::random::<u8>`, drawn from the thread-local generator.
#[verifier::external_body]
pub(crate) fn random_bytes(n: usize) -> (r: Vec<u8>)
    ensures
        r@.len() == n,
{
    (0..n).map(|_| rand::random::<u8>()).collect()
}

/// The fixed public key of the correlation-robust hash: the bytes 0 to 15.
pub open spec fn hash_key() -> Seq<u8> {
    Seq::new(16, |i: int| i as u8)
}

/// Byte `i` of the little-endian encoding of `j`.
pub open spec fn counter_byte(j: u64, i: int) -> u8 {
    ((j >> ((8 * i) as u64)) & 0xffu64) as u8
}

/// The block `x` with the counter `j` XORed into its first eight bytes.
pub open spec fn tweak(j: u64, x: Seq<u8>) -> Seq<u8> {
    Seq::new(16, |i: int| if i < 8 { x[i] ^ counter_byte(j, i) } else { x[i] })
}

/// The correlation-robust hash `H(j, x) = AES_K(x xor j) xor x` of a
/// 16-byte block.
pub open spec fn cr_hash(j: u64, x: Seq<u8>) -> Seq<u8> {
    xor_seq(ecb_seal(hash_key(), tweak(j, x)).subrange(0, 16), x)
}

/// The 16-byte key derived from the encoding of a point: the trailing block
/// of the encryption of a zero block under the encoding's first 16 bytes.
pub open spec fn point_key(enc: Seq<u8>) -> Seq<u8> {
    ecb_seal(enc.subrange(0, 16), Seq::new(16, |i: int| 0u8)).subrange(16, 32)
}

fn fixed_hash_key() -> (r: Vec<u8>)
    ensures
        r@ == hash_key(),
{
    let mut r: Vec<u8> = Vec::with_capacity(KEY_SIZE);
    let mut i: usize = 0;
    while i < KEY_SIZE
        invariant
            i <= KEY_SIZE,
            r@ =~= hash_key().subrange(0, i as int),
        decreases KEY_SIZE - i,
    {
        r.push(i as u8);
        i = i + 1;
    }
    assert(r@ =~= hash_key());
    r
}

/// The correlation-robust hash of the 16-byte block `x` at counter `j`.
pub fn hash(j: u64, x: &Vec<u8>) -> (r: Vec<u8>)
    requires
        x@.len() == KEY_SIZE,
    ensures
        r@ == cr_hash(j, x@),
        r@.len() == KEY_SIZE,
{
    let mut t: Vec<u8> = Vec::with_capacity(KEY_SIZE);
    let mut i: usize = 0;
    while i < KEY_SIZE
        invariant
            i <= KEY_SIZE,
            x@.len() == KEY_SIZE,
            t@ =~= tweak(j, x@).subrange(0, i as int),
        decreases KEY_SIZE - i,
    {
        if i < 8 {
            let c = ((j >> (8 * i as u64)) & 0xffu64) as u8;
            t.push(x[i] ^ c);
        } else {
            t.push(x[i]);
        }
        i = i + 1;
    }
    assert(t@ =~= tweak(j, x@));
    let key = fixed_hash_key();
    let c = match ecb_encrypt(&key, &t) {
        Some(c) => c,
        None => {
            assert(false);
            Vec::new()
        },
    };
    let head = slice_of(&c, 0, KEY_SIZE);
    xor(&head, x)
}

/// Hashes the 32-byte encoding of a point to a 16-byte key.
pub fn hash_pt(enc: &Vec<u8>) -> (r: Vec<u8>)
    requires
        enc@.len() == 32,
    ensures
        r@ == point_key(enc@),
        r@.len() == KEY_SIZE,
{
    let k = slice_of(enc, 0, KEY_SIZE);
    let zero: Vec<u8> = vec![0u8; KEY_SIZE];
    assert(zero@ =~= Seq::new(16, |i: int| 0u8));
    let c = match ecb_encrypt(&k, &zero) {
        Some(c) => c,
        None => {
            assert(false);
            Vec::new()
        },
    };
    slice_of(&c, KEY_SIZE, 2 * KEY_SIZE)
}

/// Encrypts `m` under the 16-byte key `k` with AES-128-ECB and PKCS#7.
pub fn encrypt(k: &Vec<u8>, m: &Vec<u8>) -> (r: Result<Vec<u8>, OtError>)
    ensures
        k@.len() == KEY_SIZE <==> r is Ok,
        r matches Ok(c) ==> c@ == ecb_seal(k@, m@) && c@.len() == (m@.len() / 16 + 1) * 16,
        r matches Err(e) ==> e == OtError::InvalidInput,
{
    match ecb_encrypt(k, m) {
        Some(c) => Ok(c),
        None => Err(OtError::InvalidInput),
    }
}

/// Decrypts `c` under the 16-byte key `k`; decrypting what `encrypt` gave
/// under the same key gives back the plaintext.
pub fn decrypt(k: &Vec<u8>, c: &Vec<u8>) -> (r: Result<Vec<u8>, OtError>)
    ensures
        k@.len() != KEY_SIZE <==> r == Err::<Vec<u8>, OtError>(OtError::InvalidInput),
        r matches Err(e) ==> e == OtError::InvalidInput || e == OtError::Crypto,
        forall|p: Seq<u8>|
            k@.len() == KEY_SIZE && c@ == #[trigger] ecb_seal(k@, p) ==> (r matches Ok(v) && v@
                == p),
{
    ecb_decrypt(k, c)
}

/// The `n` bytes that `seed` expands to.
pub fn prg(seed: &Vec<u8>, n: usize) -> (r: Vec<u8>)
    requires
        seed@.len() == SEED_LENGTH,
    ensures
        r@ == prg_bytes(seed@, n as nat),
        r@.len() == n,
{
    prg_fill(seed, n)
}

} // verus!
