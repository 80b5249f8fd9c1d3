//! The KKRT batch OPRF: an extension of 512 base OTs in which the receiver's
//! choice for query `j` is the 512-bit codeword of its input `x_j`. The
//! sender ends with its selection `s` and the columns of its matrix, from
//! which it evaluates the PRF at any input; the receiver ends with the PRF
//! at each of its inputs.

use crate::alsz::{
    lemma_row_select, mask_row, receiver_matrix, rows_of, sender_matrix, t_row, u_row,
};
use crate::bits::{
    and_seq, is_matrix, lemma_row_bit_and, lemma_row_bit_xor, lemma_row_ext, lemma_transpose_bit,
    row_bit, rows_view, slice_of, transpose, transpose_spec, xor, xor_seq,
};
use crate::crypto::{cr_hash, ecb_seal, encrypt, hash, prg, KEY_SIZE};
use vstd::prelude::*;

verus! {

/// Number of base OTs, and of bits in a codeword.
pub const WIDTH: usize = 512;

/// Length of a codeword in bytes.
pub const CODE_SIZE: usize = 64;

/// The fixed public key of the code: the bytes 16 to 31.
pub open spec fn code_key() -> Seq<u8> {
    Seq::new(16, |i: int| (i + 16) as u8)
}

/// Four copies of the block `x`, copy `c` with `c` XORed into each byte.
pub open spec fn code_input(x: Seq<u8>) -> Seq<u8> {
    Seq::new(64, |p: int| x[p % 16] ^ ((p / 16) as u8))
}

/// The codeword of a 16-byte input: the AES encryption of four tweaked
/// copies of it under the code's key.
pub open spec fn code_word(x: Seq<u8>) -> Seq<u8> {
    Seq::new(64, |p: int| ecb_seal(code_key(), code_input(x))[p])
}

/// The PRF output for index `j` and a 64-byte row: the correlation-robust
/// hashes of its four blocks under counters `4 j` to `4 j + 3`, XORed.
pub open spec fn wide_hash(j: int, v: Seq<u8>) -> Seq<u8> {
    xor_seq(
        xor_seq(
            xor_seq(
                cr_hash((4 * j) as u64, v.subrange(0, 16)),
                cr_hash((4 * j + 1) as u64, v.subrange(16, 32)),
            ),
            cr_hash((4 * j + 2) as u64, v.subrange(32, 48)),
        ),
        cr_hash((4 * j + 3) as u64, v.subrange(48, 64)),
    )
}

/// The columns of the matrix whose rows are the codewords of the inputs.
pub open spec fn code_columns(xs: Seq<Seq<u8>>) -> Seq<Seq<u8>> {
    transpose_spec(Seq::new(xs.len(), |j: int| code_word(xs[j])), 64)
}

/// The masks the receiver sends: for base OT `i`, both seeds expanded,
/// XORed with column `i` of the codewords.
pub open spec fn oprf_masks(
    seeds0: Seq<Seq<u8>>,
    seeds1: Seq<Seq<u8>>,
    ccols: Seq<Seq<u8>>,
    nb: nat,
) -> Seq<Seq<u8>> {
    Seq::new(seeds0.len(), |i: int| u_row(seeds0[i], seeds1[i], ccols[i], nb))
}

/// The sender's PRF at index `j` and input `x`: row `j` of its columns,
/// with the bits of the codeword of `x` that its selection keeps XORed in,
/// hashed.
pub open spec fn eval_spec(s: Seq<u8>, qcols: Seq<Seq<u8>>, j: int, x: Seq<u8>) -> Seq<u8> {
    wide_hash(j, xor_seq(qcols[j], and_seq(code_word(x), s)))
}

/// OPRF correctness: when the sender obtained from each base OT the seed
/// that its selection bit chose, its PRF at index `j` and the receiver's
/// input `x_j` equals the receiver's output at `j`.
pub proof fn lemma_oprf_correct(
    s: Seq<u8>,
    seeds0: Seq<Seq<u8>>,
    seeds1: Seq<Seq<u8>>,
    xs: Seq<Seq<u8>>,
    j: int,
)
    requires
        s.len() == 64,
        seeds0.len() == 512,
        seeds1.len() == 512,
        xs.len() % 8 == 0,
        0 <= j < xs.len(),
    ensures
        ({
            let nb = xs.len() / 8;
            let ks = Seq::new(512, |i: int| if row_bit(s, i) { seeds1[i] } else { seeds0[i] });
            let us = oprf_masks(seeds0, seeds1, code_columns(xs), nb);
            let qcols = transpose_spec(sender_matrix(s, ks, us, nb), nb);
            let tcols = transpose_spec(receiver_matrix(seeds0, nb), nb);
            eval_spec(s, qcols, j, xs[j]) == wide_hash(j, tcols[j])
        }),
{
    let m = xs.len();
    let nb = m / 8;
    let ks = Seq::new(512, |i: int| if row_bit(s, i) { seeds1[i] } else { seeds0[i] });
    let cm = Seq::new(m, |k: int| code_word(xs[k]));
    let ccols = transpose_spec(cm, 64);
    let us = oprf_masks(seeds0, seeds1, ccols, nb);
    let qm = sender_matrix(s, ks, us, nb);
    let tm = receiver_matrix(seeds0, nb);
    let qcols = transpose_spec(qm, nb);
    let tcols = transpose_spec(tm, nb);
    let cw = code_word(xs[j]);
    assert(is_matrix(cm, 64));
    assert(is_matrix(qm, nb));
    assert(is_matrix(tm, nb));
    let want = xor_seq(qcols[j], and_seq(cw, s));
    assert forall|i: int| 0 <= i < 8 * want.len() implies row_bit(want, i) == row_bit(
        tcols[j],
        i,
    ) by {
        lemma_row_select(row_bit(s, i), seeds0[i], seeds1[i], ccols[i], nb);
        lemma_row_bit_xor(qcols[j], and_seq(cw, s), i);
        lemma_row_bit_and(cw, s, i);
        lemma_transpose_bit(qm, nb, j, i);
        lemma_transpose_bit(tm, nb, j, i);
        lemma_transpose_bit(cm, 64, i, j);
        lemma_row_bit_xor(tm[i], ccols[i], j);
    }
    lemma_row_ext(want, tcols[j]);
}

fn code_key_bytes() -> (r: Vec<u8>)
    ensures
        r@ == code_key(),
{
    let mut r: Vec<u8> = Vec::with_capacity(KEY_SIZE);
    let mut i: usize = 0;
    while i < KEY_SIZE
        invariant
            i <= KEY_SIZE,
            r@ =~= code_key().subrange(0, i as int),
        decreases KEY_SIZE - i,
    {
        r.push((i + 16) as u8);
        i = i + 1;
    }
    assert(r@ =~= code_key());
    r
}

/// The 64-byte codeword of a 16-byte input.
pub fn code(x: &Vec<u8>) -> (c: Vec<u8>)
    requires
        x@.len() == 16,
    ensures
        c@ == code_word(x@),
        c@.len() == CODE_SIZE,
{
    let mut input: Vec<u8> = Vec::with_capacity(CODE_SIZE);
    let mut p: usize = 0;
    while p < CODE_SIZE
        invariant
            p <= CODE_SIZE,
            x@.len() == 16,
            input@ =~= code_input(x@).subrange(0, p as int),
        decreases CODE_SIZE - p,
    {
        input.push(x[p % 16] ^ ((p / 16) as u8));
        p = p + 1;
    }
    assert(input@ =~= code_input(x@));
    let key = code_key_bytes();
    let sealed = match encrypt(&key, &input) {
        Ok(c) => c,
        Err(_) => {
            assert(false);
            Vec::new()
        },
    };
    let c = slice_of(&sealed, 0, CODE_SIZE);
    assert(c@ =~= code_word(x@));
    c
}

/// The PRF output for index `j` and a 64-byte row.
pub fn prf_output(j: usize, v: &Vec<u8>) -> (r: Vec<u8>)
    requires
        v@.len() == CODE_SIZE,
        j <= usize::MAX / 64,
    ensures
        r@ == wide_hash(j as int, v@),
        r@.len() == 16,
{
    let base = (4 * j) as u64;
    let h0 = hash(base, &slice_of(v, 0, 16));
    let h1 = hash(base + 1, &slice_of(v, 16, 32));
    let h2 = hash(base + 2, &slice_of(v, 32, 48));
    let h3 = hash(base + 3, &slice_of(v, 48, 64));
    let a = xor(&h0, &h1);
    let b = xor(&a, &h2);
    xor(&b, &h3)
}

/// The receiver's side: from its 512 pairs of seeds and its `m` inputs, the
/// 512 masks it sends and its `m` PRF outputs.
pub fn receiver_oprf(seeds0: &Vec<Vec<u8>>, seeds1: &Vec<Vec<u8>>, xs: &Vec<Vec<u8>>) -> (res: (
    Vec<Vec<u8>>,
    Vec<Vec<u8>>,
))
    requires
        rows_of(seeds0@, 512, 32),
        rows_of(seeds1@, 512, 32),
        rows_of(xs@, xs@.len(), 16),
        xs@.len() % 8 == 0,
        xs@.len() <= usize::MAX / 64,
    ensures
        rows_view(res.0@) == oprf_masks(
            rows_view(seeds0@),
            rows_view(seeds1@),
            code_columns(rows_view(xs@)),
            xs@.len() / 8,
        ),
        rows_view(res.1@) == Seq::new(
            xs@.len(),
            |j: int|
                wide_hash(
                    j,
                    transpose_spec(receiver_matrix(rows_view(seeds0@), xs@.len() / 8), xs@.len() / 8)[j],
                ),
        ),
{
    let m = xs.len();
    let nb = m / 8;
    let ghost xv = rows_view(xs@);
    let ghost s0 = rows_view(seeds0@);
    let ghost s1 = rows_view(seeds1@);
    let mut codes: Vec<Vec<u8>> = Vec::with_capacity(m);
    let mut j: usize = 0;
    while j < m
        invariant
            j <= m,
            m == xs@.len(),
            xv == rows_view(xs@),
            rows_of(xs@, xs@.len(), 16),
            rows_view(codes@) =~= Seq::new(m as nat, |j: int| code_word(xv[j])).subrange(0, j as int),
        decreases m - j,
    {
        let c = code(&xs[j]);
        let ghost prev = codes@;
        let ghost cv = c@;
        codes.push(c);
        assert(rows_view(codes@) =~= rows_view(prev).push(cv));
        j = j + 1;
    }
    let ghost cm = Seq::new(m as nat, |j: int| code_word(xv[j]));
    assert(rows_view(codes@) =~= cm);
    let ccols = transpose(&codes, CODE_SIZE);
    proof {
        assert(rows_view(ccols@).len() == ccols@.len());
        assert forall|i: int| 0 <= i < 512 implies #[trigger] ccols@[i]@.len() == nb by {
            assert(rows_view(ccols@)[i] == ccols@[i]@);
        }
    }
    let mut us: Vec<Vec<u8>> = Vec::with_capacity(WIDTH);
    let mut ts: Vec<Vec<u8>> = Vec::with_capacity(WIDTH);
    let mut i: usize = 0;
    while i < WIDTH
        invariant
            i <= WIDTH,
            s0 == rows_view(seeds0@),
            s1 == rows_view(seeds1@),
            rows_of(seeds0@, 512, 32),
            rows_of(seeds1@, 512, 32),
            nb == m / 8,
            rows_view(ccols@) == code_columns(xv),
            ccols@.len() == 512,
            forall|i: int| 0 <= i < 512 ==> #[trigger] ccols@[i]@.len() == nb,
            rows_view(us@) =~= oprf_masks(s0, s1, code_columns(xv), nb as nat).subrange(0, i as int),
            rows_view(ts@) =~= receiver_matrix(s0, nb as nat).subrange(0, i as int),
        decreases WIDTH - i,
    {
        let t = prg(&seeds0[i], nb);
        let g = prg(&seeds1[i], nb);
        let col = &ccols[i];
        assert(col@ == code_columns(xv)[i as int]);
        let u = mask_row(&t, &g, col);
        assert(u@ =~= u_row(s0[i as int], s1[i as int], code_columns(xv)[i as int], nb as nat));
        assert(t@ =~= t_row(s0[i as int], nb as nat));
        let ghost (uv, tv, pu, pt) = (u@, t@, us@, ts@);
        us.push(u);
        ts.push(t);
        assert(rows_view(us@) =~= rows_view(pu).push(uv));
        assert(rows_view(ts@) =~= rows_view(pt).push(tv));
        i = i + 1;
    }
    assert(rows_view(ts@) =~= receiver_matrix(s0, nb as nat));
    assert(rows_view(us@) =~= oprf_masks(s0, s1, code_columns(xv), nb as nat));
    let tcols = transpose(&ts, nb);
    let ghost tc = transpose_spec(receiver_matrix(s0, nb as nat), nb as nat);
    proof {
        assert(is_matrix(receiver_matrix(s0, nb as nat), nb as nat));
        assert(8 * nb == m);
    }
    let mut outs: Vec<Vec<u8>> = Vec::with_capacity(m);
    let mut j: usize = 0;
    while j < m
        invariant
            j <= m,
            m == 8 * nb,
            m <= usize::MAX / 64,
            is_matrix(receiver_matrix(s0, nb as nat), nb as nat),
            receiver_matrix(s0, nb as nat).len() == 512,
            rows_view(tcols@) == tc,
            tc == transpose_spec(receiver_matrix(s0, nb as nat), nb as nat),
            rows_view(outs@) =~= Seq::new(m as nat, |j: int| wide_hash(j, tc[j])).subrange(0, j as int),
        decreases m - j,
    {
        proof {
            assert(rows_view(tcols@).len() == tcols@.len());
            assert(rows_view(tcols@)[j as int] == tcols@[j as int]@);
        }
        let o = prf_output(j, &tcols[j]);
        let ghost prev = outs@;
        let ghost ov = o@;
        outs.push(o);
        assert(rows_view(outs@) =~= rows_view(prev).push(ov));
        j = j + 1;
    }
    (us, outs)
}

/// The sender's PRF at index `j` and input `x`.
pub fn eval(s: &Vec<u8>, qcols: &Vec<Vec<u8>>, j: usize, x: &Vec<u8>) -> (r: Vec<u8>)
    requires
        s@.len() == CODE_SIZE,
        x@.len() == 16,
        j < qcols@.len(),
        qcols@[j as int]@.len() == CODE_SIZE,
        j <= usize::MAX / 64,
    ensures
        r@ == eval_spec(s@, rows_view(qcols@), j as int, x@),
{
    let c = code(x);
    let mut kept: Vec<u8> = Vec::with_capacity(CODE_SIZE);
    let mut p: usize = 0;
    while p < CODE_SIZE
        invariant
            p <= CODE_SIZE,
            c@.len() == CODE_SIZE,
            s@.len() == CODE_SIZE,
            kept@ =~= and_seq(c@, s@).subrange(0, p as int),
        decreases CODE_SIZE - p,
    {
        kept.push(c[p] & s[p]);
        p = p + 1;
    }
    assert(kept@ =~= and_seq(c@, s@));
    let v = xor(&qcols[j], &kept);
    assert(rows_view(qcols@)[j as int] == qcols@[j as int]@);
    prf_output(j, &v)
}

} // verus!
