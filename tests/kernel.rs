use ocelot::bits::{pack_bits, transpose, unpack_bits, xor};
use ocelot::bits::slice_of;
use ocelot::crypto::{decrypt, encrypt, hash, hash_pt, prg};
use ocelot::error::OtError;
use ocelot::wire::Stream;

fn rand_u8_vec(size: usize) -> Vec<u8> {
    (0..size).map(|_| rand::random::<u8>()).collect()
}

#[test]
fn xor_bytes() {
    assert_eq!(xor(&vec![0x0F, 0xAA, 0], &vec![0xFF, 0x55, 7]), vec![0xF0, 0xFF, 7]);
    assert_eq!(xor(&vec![], &vec![]), Vec::<u8>::new());
}

#[test]
fn transpose_single_bits() {
    // 8 rows of 1 byte: row i has only bit i set, a diagonal.
    let x: Vec<Vec<u8>> = (0..8).map(|i| vec![1u8 << i]).collect();
    assert_eq!(transpose(&x, 1), x);
    // 8 rows of 2 bytes, only row 3 has bit 9 set.
    let mut y: Vec<Vec<u8>> = vec![vec![0u8, 0u8]; 8];
    y[3][1] = 0b10;
    let t = transpose(&y, 2);
    assert_eq!(t.len(), 16);
    for (j, row) in t.iter().enumerate() {
        assert_eq!(row.clone(), if j == 9 { vec![0b1000u8] } else { vec![0u8] });
    }
}

#[test]
fn transpose_twice_is_identity() {
    let x: Vec<Vec<u8>> = (0..128).map(|_| rand_u8_vec(24)).collect();
    let t = transpose(&x, 24);
    assert_eq!(t.len(), 192);
    assert!(t.iter().all(|r| r.len() == 16));
    assert_eq!(transpose(&t, 16), x);
}

#[test]
fn aes_known_answer() {
    // FIPS-197 appendix C.1, followed by a full block of PKCS#7 padding.
    let key: Vec<u8> = (0..16).collect();
    let pt: Vec<u8> = (0..16).map(|i| (i * 0x11) as u8).collect();
    let ct = encrypt(&key, &pt).unwrap();
    assert_eq!(ct.len(), 32);
    assert_eq!(
        slice_of(&ct, 0, 16),
        vec![
            0x69, 0xc4, 0xe0, 0xd8, 0x6a, 0x7b, 0x04, 0x30, 0xd8, 0xcd, 0xb7, 0x80, 0x70, 0xb4,
            0xc5, 0x5a
        ]
    );
}

#[test]
fn encrypt_decrypt_round_trip() {
    for len in [0usize, 1, 15, 16, 17, 100] {
        let key = rand_u8_vec(16);
        let p = rand_u8_vec(len);
        let c = encrypt(&key, &p).unwrap();
        assert_eq!(c.len(), (len / 16 + 1) * 16);
        assert_ne!(c, p);
        assert_eq!(decrypt(&key, &c).unwrap(), p);
    }
}

#[test]
fn bad_key_length() {
    assert_eq!(encrypt(&vec![0u8; 15], &vec![1u8; 4]), Err(OtError::InvalidInput));
    assert_eq!(decrypt(&vec![0u8; 17], &vec![1u8; 16]), Err(OtError::InvalidInput));
}

#[test]
fn bad_ciphertext() {
    assert_eq!(decrypt(&vec![0u8; 16], &vec![1u8; 15]), Err(OtError::Crypto));
}

#[test]
fn hash_depends_on_counter() {
    let x = rand_u8_vec(16);
    let h0 = hash(0, &x);
    assert_eq!(h0.len(), 16);
    assert_eq!(h0, hash(0, &x));
    assert_ne!(h0, hash(1, &x));
    assert_ne!(h0, x);
}

#[test]
fn point_hash_is_deterministic() {
    let p = rand_u8_vec(32);
    let k = hash_pt(&p);
    assert_eq!(k.len(), 16);
    assert_eq!(k, hash_pt(&p));
    // The trailing block of the encryption of a zero block under the first
    // half of the encoding.
    let c = encrypt(&slice_of(&p, 0, 16), &vec![0u8; 16]).unwrap();
    assert_eq!(k, slice_of(&c, 16, 32));
}

#[test]
fn prg_expands_seed() {
    let seed = rand_u8_vec(32);
    let a = prg(&seed, 100);
    assert_eq!(a.len(), 100);
    assert_eq!(a, prg(&seed, 100));
    assert_ne!(slice_of(&a, 0, 32), seed);
}

#[test]
fn pack_little_endian() {
    let bits = vec![true, false, false, false, false, false, false, false, false, true];
    assert_eq!(pack_bits(&bits), vec![1u8, 2u8]);
    assert_eq!(unpack_bits(&vec![1u8, 2u8], 10), bits);
    assert_eq!(pack_bits(&vec![]), Vec::<u8>::new());
}

#[test]
fn stream_round_trip() {
    let mut w = Stream::new(Vec::new());
    assert_eq!(w.write_bool(true), 1);
    assert_eq!(w.write_bytes(&vec![7u8, 8u8]), 2);
    w.write_bitvec(&vec![false, true, true]);
    w.write_bool(false);
    let bytes = w.stream();
    assert_eq!(bytes, vec![1u8, 7, 8, 6, 0]);
    assert_eq!(w.stream(), Vec::<u8>::new());
    let mut r = Stream::new(bytes);
    assert_eq!(r.read_bool(), Ok(true));
    assert_eq!(r.read_bytes(2), Ok(vec![7u8, 8]));
    assert_eq!(r.read_bitvec(3), Ok(vec![false, true, true]));
    assert_eq!(r.read_bool(), Ok(false));
    assert_eq!(r.read_bool(), Err(OtError::Io));
    assert_eq!(r.read_bytes(1), Err(OtError::Io));
}

#[test]
fn short_read_leaves_stream() {
    let mut r = Stream::new(vec![1u8, 2, 3]);
    assert_eq!(r.read_bytes(4), Err(OtError::Io));
    assert_eq!(r.read_pt(), Err(OtError::Io));
    assert_eq!(r.read_bytes(3), Ok(vec![1u8, 2, 3]));
}

#[test]
fn u128_little_endian() {
    let x: u128 = 0x0f0e0d0c0b0a09080706050403020100;
    let mut w = Stream::new(Vec::new());
    assert_eq!(w.write_u128(&x), 16);
    let bytes = w.stream();
    assert_eq!(bytes, (0u8..16).collect::<Vec<u8>>());
    let mut r = Stream::new(bytes);
    assert_eq!(r.read_u128(), Ok(x));
    assert_eq!(r.read_u128(), Err(OtError::Io));
    let y = rand::random::<u128>();
    let mut w = Stream::new(Vec::new());
    w.write_u128(&y);
    let mut r = Stream::new(w.stream());
    assert_eq!(r.read_u128(), Ok(y));
}
