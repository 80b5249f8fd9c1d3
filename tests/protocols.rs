use ocelot::alsz::{
    draw_seeds, draw_selection, receive_masks, receive_pads, receiver_extend, receiver_outputs,
    route, send_pads, sender_extend, sender_pads, Route,
};
use ocelot::bits::{concat_rows, split_rows, unpack_bits};
use ocelot::kkrt::{code, eval, prf_output, receiver_oprf};
use ocelot::chou_orlandi::{
    receive_first, receive_second, receiver_decrypt, receiver_reply, send_first, send_second,
    sender_announce, sender_encrypt,
};
use ocelot::error::OtError;
use ocelot::wire::Stream;

fn rand_u8_vec(size: usize) -> Vec<u8> {
    (0..size).map(|_| rand::random::<u8>()).collect()
}

fn rand_bool_vec(size: usize) -> Vec<bool> {
    (0..size).map(|_| rand::random::<bool>()).collect()
}

/// One Chou–Orlandi transfer; each party's bytes pass through its stream
/// and are handed to the other's.
fn chou_orlandi(m0: &Vec<u8>, m1: &Vec<u8>, choice: u16) -> Result<Vec<u8>, OtError> {
    let mut sender = Stream::new(Vec::new());
    let (a, big_a) = send_first(&mut sender);
    let mut receiver = Stream::new(sender.stream());
    let key = receive_first(&mut receiver, choice)?;
    let mut sender = Stream::new(receiver.stream());
    send_second(&mut sender, &a, &big_a, m0, m1)?;
    let mut receiver = Stream::new(sender.stream());
    receive_second(&mut receiver, choice == 1, &key, m0.len())
}

/// One Chou–Orlandi transfer through the pure steps, with scalars drawn here.
fn chou_orlandi_steps(m0: &Vec<u8>, m1: &Vec<u8>, choice: u16) -> Result<Vec<u8>, OtError> {
    let a = rand_u8_vec(32);
    let b = rand_u8_vec(32);
    let big_a = sender_announce(&a);
    let (big_b, key) = receiver_reply(choice, &b, &big_a)?;
    let (c0, c1) = sender_encrypt(&a, &big_a, &big_b, m0, m1)?;
    receiver_decrypt(choice == 1, &key, &c0, &c1)
}

/// An ALSZ extension over streams, its 128 base OTs run as Chou–Orlandi
/// transfers of seeds in the opposite direction.
fn alsz(m0s: &Vec<Vec<u8>>, m1s: &Vec<Vec<u8>>, r: &Vec<bool>) -> Result<Vec<Vec<u8>>, OtError> {
    let n = r.len();
    assert_eq!(route(n), Ok(Route::Extension));
    let s = draw_selection(16);
    let choices = unpack_bits(&s, 128);
    let (seeds0, seeds1) = draw_seeds(128);
    let mut ks = Vec::new();
    for i in 0..128 {
        ks.push(chou_orlandi(&seeds0[i], &seeds1[i], choices[i] as u16)?);
    }
    let mut receiver = Stream::new(Vec::new());
    let tcols = receive_masks(&mut receiver, &seeds0, &seeds1, r)?;
    let masks = receiver.stream();
    assert_eq!(masks.len(), 128 * n / 8);
    let mut sender = Stream::new(masks);
    let inputs: Vec<(Vec<u8>, Vec<u8>)> =
        m0s.iter().cloned().zip(m1s.iter().cloned()).collect();
    send_pads(&mut sender, &s, &ks, &inputs)?;
    let pads = sender.stream();
    assert_eq!(pads.len(), 32 * n);
    let mut receiver = Stream::new(pads);
    receive_pads(&mut receiver, r, &tcols)
}

/// The same extension through the pure steps.
fn alsz_steps(m0s: &Vec<Vec<u8>>, m1s: &Vec<Vec<u8>>, r: &Vec<bool>) -> Vec<Vec<u8>> {
    let n = r.len();
    let s = rand_u8_vec(16);
    let seeds0: Vec<Vec<u8>> = (0..128).map(|_| rand_u8_vec(32)).collect();
    let seeds1: Vec<Vec<u8>> = (0..128).map(|_| rand_u8_vec(32)).collect();
    let mut ks = Vec::new();
    for i in 0..128 {
        let sel = (s[i / 8] >> (i % 8)) & 1;
        ks.push(chou_orlandi_steps(&seeds0[i], &seeds1[i], sel as u16).unwrap());
    }
    let (us, tcols) = receiver_extend(&seeds0, &seeds1, r);
    let qcols = sender_extend(&s, &ks, &us, n / 8);
    let inputs: Vec<(Vec<u8>, Vec<u8>)> =
        m0s.iter().cloned().zip(m1s.iter().cloned()).collect();
    let ys = sender_pads(&s, &qcols, &inputs);
    receiver_outputs(r, &tcols, &ys)
}

fn check_alsz(n: usize) {
    let m0s: Vec<Vec<u8>> = (0..n).map(|_| rand_u8_vec(16)).collect();
    let m1s: Vec<Vec<u8>> = (0..n).map(|_| rand_u8_vec(16)).collect();
    let bs = rand_bool_vec(n);
    let results = alsz(&m0s, &m1s, &bs).unwrap();
    assert_eq!(results.len(), n);
    for j in 0..n {
        assert_eq!(results[j], if bs[j] { m1s[j].clone() } else { m0s[j].clone() });
    }
}

#[test]
fn test() {
    let m0 = rand_u8_vec(32);
    let m1 = rand_u8_vec(32);
    let b = rand::random::<bool>();
    let result = chou_orlandi(&m0, &m1, b as u16).unwrap();
    assert_eq!(result, if b { m1 } else { m0 });
}

#[test]
fn test_chou_orlandi() {
    check_alsz(1024);
}

#[test]
fn chou_orlandi_zero_and_ones_choice_one() {
    let m0 = vec![0u8; 32];
    let m1 = vec![0xFFu8; 32];
    assert_eq!(chou_orlandi(&m0, &m1, 1).unwrap(), vec![0xFFu8; 32]);
}

#[test]
fn chou_orlandi_random_choice_zero() {
    let m0 = rand_u8_vec(32);
    let m1 = rand_u8_vec(32);
    assert_eq!(chou_orlandi(&m0, &m1, 0).unwrap(), m0);
}

#[test]
fn chou_orlandi_choice_out_of_range() {
    let big_a = sender_announce(&rand_u8_vec(32));
    assert_eq!(receiver_reply(2, &rand_u8_vec(32), &big_a), Err(OtError::InvalidInput));
}

#[test]
fn chou_orlandi_bad_point() {
    let bad = vec![0xFFu8; 32];
    assert_eq!(receiver_reply(0, &rand_u8_vec(32), &bad), Err(OtError::InvalidEncoding));
    let a = rand_u8_vec(32);
    let big_a = sender_announce(&a);
    let m = vec![1u8; 16];
    assert_eq!(sender_encrypt(&a, &big_a, &bad, &m, &m), Err(OtError::InvalidEncoding));
    let mut stream = Stream::new(bad);
    assert_eq!(stream.read_pt(), Err(OtError::InvalidEncoding));
}

#[test]
fn chou_orlandi_wrong_ciphertext() {
    let key = vec![3u8; 16];
    let c = vec![9u8; 32];
    assert_eq!(receiver_decrypt(false, &key, &c, &c), Err(OtError::Crypto));
}

#[test]
fn alsz_boundary() {
    assert_eq!(route(129), Err(OtError::InvalidInput));
    assert_eq!(route(136), Ok(Route::Extension));
    assert_eq!(route(128), Ok(Route::Base));
    check_alsz(136);
}

#[test]
fn alsz_fallback_runs_base_ot() {
    let n = 64;
    assert_eq!(route(n), Ok(Route::Base));
    let m0s: Vec<Vec<u8>> = (0..n).map(|_| rand_u8_vec(16)).collect();
    let m1s: Vec<Vec<u8>> = (0..n).map(|_| rand_u8_vec(16)).collect();
    let bs = rand_bool_vec(n);
    for j in 0..n {
        let out = chou_orlandi(&m0s[j], &m1s[j], bs[j] as u16).unwrap();
        assert_eq!(out, if bs[j] { m1s[j].clone() } else { m0s[j].clone() });
    }
}

#[test]
fn alsz_all_zero_and_all_one_choices() {
    let n = 256;
    let m0s: Vec<Vec<u8>> = (0..n).map(|_| rand_u8_vec(16)).collect();
    let m1s: Vec<Vec<u8>> = (0..n).map(|_| rand_u8_vec(16)).collect();
    assert_eq!(alsz_steps(&m0s, &m1s, &vec![false; n]), m0s);
    assert_eq!(alsz_steps(&m0s, &m1s, &vec![true; n]), m1s);
    let bs = rand_bool_vec(n);
    let out = alsz_steps(&m0s, &m1s, &bs);
    for j in 0..n {
        assert_eq!(out[j], if bs[j] { m1s[j].clone() } else { m0s[j].clone() });
    }
}

#[test]
fn chou_orlandi_steps_single_pair() {
    let m0 = rand_u8_vec(20);
    let m1 = rand_u8_vec(20);
    assert_eq!(chou_orlandi_steps(&m0, &m1, 0).unwrap(), m0);
    assert_eq!(chou_orlandi_steps(&m0, &m1, 1).unwrap(), m1);
}

#[test]
fn chou_orlandi_stream_errors() {
    let mut empty = Stream::new(Vec::new());
    assert_eq!(receive_first(&mut empty, 2), Err(OtError::InvalidInput));
    assert_eq!(receive_first(&mut empty, 1), Err(OtError::Io));
    let mut bad = Stream::new(vec![0xFFu8; 32]);
    assert_eq!(receive_first(&mut bad, 0), Err(OtError::InvalidEncoding));
    assert_eq!(bad.stream(), Vec::<u8>::new());
    let mut short = Stream::new(vec![0u8; 40]);
    assert_eq!(receive_second(&mut short, false, &vec![0u8; 16], 32), Err(OtError::Io));
}

#[test]
fn alsz_stream_errors() {
    let (seeds0, seeds1) = draw_seeds(128);
    let mut stream = Stream::new(Vec::new());
    assert_eq!(
        receive_masks(&mut stream, &seeds0, &seeds1, &vec![true; 129]),
        Err(OtError::InvalidInput)
    );
    assert_eq!(
        receive_masks(&mut stream, &seeds0, &seeds1, &vec![true; 128]),
        Err(OtError::InvalidInput)
    );
    assert_eq!(stream.stream(), Vec::<u8>::new());
    let s = draw_selection(16);
    let inputs = vec![(vec![0u8; 16], vec![1u8; 16]); 136];
    assert_eq!(send_pads(&mut stream, &s, &seeds0, &inputs), Err(OtError::Io));
    let short = vec![(vec![0u8; 15], vec![1u8; 16]); 136];
    assert_eq!(send_pads(&mut stream, &s, &seeds0, &short), Err(OtError::InvalidInput));
    let tcols = receive_masks(&mut stream, &seeds0, &seeds1, &vec![false; 136]).unwrap();
    assert_eq!(tcols.len(), 136);
    let mut empty = Stream::new(Vec::new());
    assert_eq!(receive_pads(&mut empty, &vec![false; 136], &tcols), Err(OtError::Io));
    assert_eq!(receive_pads(&mut empty, &vec![false; 144], &tcols), Err(OtError::InvalidInput));
}

/// A KKRT OPRF of `n` queries over the pure steps, its 512 base OTs run as
/// Chou–Orlandi transfers of seeds; returns the receiver's outputs and the
/// sender's selection and columns.
fn kkrt(xs: &Vec<Vec<u8>>) -> (Vec<Vec<u8>>, Vec<u8>, Vec<Vec<u8>>) {
    let n = xs.len();
    let s = draw_selection(64);
    let choices = unpack_bits(&s, 512);
    let (seeds0, seeds1) = draw_seeds(512);
    let mut ks = Vec::new();
    for i in 0..512 {
        ks.push(chou_orlandi_steps(&seeds0[i], &seeds1[i], choices[i] as u16).unwrap());
    }
    let (us, outputs) = receiver_oprf(&seeds0, &seeds1, xs);
    assert_eq!(us.len(), 512);
    let masks = concat_rows(&us, n / 8);
    let us_read = split_rows(&masks, 512, n / 8);
    let qcols = sender_extend(&s, &ks, &us_read, n / 8);
    (outputs, s, qcols)
}

#[test]
fn kkrt_outputs_match_evaluation() {
    let n = 4096;
    let xs: Vec<Vec<u8>> = (0..n).map(|_| rand_u8_vec(16)).collect();
    let (outputs, s, qcols) = kkrt(&xs);
    assert_eq!(outputs.len(), n);
    for j in 0..n {
        assert_eq!(outputs[j].len(), 16);
        assert_eq!(eval(&s, &qcols, j, &xs[j]), outputs[j]);
    }
    // Another input at the same index gives another output.
    for j in 0..16 {
        let mut other = xs[j].clone();
        other[0] ^= 1;
        assert_ne!(eval(&s, &qcols, j, &other), outputs[j]);
    }
}

#[test]
fn kkrt_equal_inputs_differ_by_index() {
    let n = 136;
    let xs: Vec<Vec<u8>> = vec![vec![5u8; 16]; n];
    let (outputs, s, qcols) = kkrt(&xs);
    assert_ne!(outputs[0], outputs[1]);
    assert_eq!(eval(&s, &qcols, 1, &xs[1]), outputs[1]);
}

#[test]
fn kkrt_code_is_fixed() {
    let x = vec![0u8; 16];
    let c = code(&x);
    assert_eq!(c.len(), 64);
    assert_eq!(c, code(&x));
    assert_ne!(c, code(&vec![1u8; 16]));
    let v = vec![0u8; 64];
    assert_eq!(prf_output(3, &v).len(), 16);
    assert_ne!(prf_output(3, &v), prf_output(4, &v));
}
