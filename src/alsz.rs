//! The ALSZ extension of 128 base OTs into many OTs of 16-byte blocks.
//!
//! The receiver holds `m` choice bits `r`, packed into `m / 8` bytes, and 128
//! pairs of seeds that it hands to the base OT as sender. The sender holds a
//! 16-byte selection `s` and obtains, through the base OT, seed `i` of pair
//! `i` when bit `i` of `s` is set and seed 0 of it otherwise.

use crate::bits::{
    lemma_row_bit_xor, lemma_row_ext, lemma_transpose_bit, rows_view, row_bit, transpose,
    transpose_spec, is_matrix, xor, xor_seq, pack_spec, pack_bits, lemma_pack_bit, chunks,
    concat_rows, split_rows,
};
use crate::error::OtError;
use crate::crypto::{cr_hash, hash, prg, prg_bytes, random_bytes, SEED_LENGTH};
use crate::wire::Stream;
use vstd::prelude::*;

verus! {

/// Number of base OTs the extension consumes.
pub const BASE_COUNT: usize = 128;

/// Both members of every pair are 16-byte blocks.
pub open spec fn blocks16(ps: Seq<(Vec<u8>, Vec<u8>)>) -> bool {
    forall|j: int| 0 <= j < ps.len() ==> #[trigger] ps[j].0@.len() == 16 && ps[j].1@.len() == 16
}

/// The byte strings held by a vector of pairs.
pub open spec fn pairs_view(v: Seq<(Vec<u8>, Vec<u8>)>) -> Seq<(Seq<u8>, Seq<u8>)> {
    Seq::new(v.len(), |j: int| (v[j].0@, v[j].1@))
}

/// Row `i` of the receiver's matrix: seed 0 of pair `i` expanded to `nb` bytes.
pub open spec fn t_row(seed0: Seq<u8>, nb: nat) -> Seq<u8> {
    Seq::new(nb, |p: int| prg_bytes(seed0, nb)[p])
}

/// The mask the receiver sends for pair `i`: both seeds expanded, XORed
/// with the packed choice bits.
pub open spec fn u_row(seed0: Seq<u8>, seed1: Seq<u8>, r: Seq<u8>, nb: nat) -> Seq<u8> {
    Seq::new(nb, |p: int| prg_bytes(seed0, nb)[p] ^ prg_bytes(seed1, nb)[p] ^ r[p])
}

/// Row `i` of the sender's matrix: the seed it obtained expanded, XORed
/// with the mask when its selection bit is set.
pub open spec fn q_row(sel: bool, k: Seq<u8>, u: Seq<u8>, nb: nat) -> Seq<u8> {
    Seq::new(nb, |p: int| (if sel { u[p] } else { 0u8 }) ^ prg_bytes(k, nb)[p])
}

/// The receiver's matrix, one row per base OT.
pub open spec fn receiver_matrix(seeds0: Seq<Seq<u8>>, nb: nat) -> Seq<Seq<u8>> {
    Seq::new(seeds0.len(), |i: int| t_row(seeds0[i], nb))
}

/// The 128 masks the receiver sends.
pub open spec fn receiver_masks(
    seeds0: Seq<Seq<u8>>,
    seeds1: Seq<Seq<u8>>,
    r: Seq<u8>,
    nb: nat,
) -> Seq<Seq<u8>> {
    Seq::new(128, |i: int| u_row(seeds0[i], seeds1[i], r, nb))
}

/// The sender's matrix, one row per base OT.
pub open spec fn sender_matrix(s: Seq<u8>, ks: Seq<Seq<u8>>, us: Seq<Seq<u8>>, nb: nat) -> Seq<
    Seq<u8>,
> {
    Seq::new(ks.len(), |i: int| q_row(row_bit(s, i), ks[i], us[i], nb))
}

/// The masked pairs the sender sends: column `j` of its matrix hashed under
/// counter `j`, alone for the first message and XORed with `s` for the second.
pub open spec fn sender_pads_spec(
    s: Seq<u8>,
    qcols: Seq<Seq<u8>>,
    ms: Seq<(Seq<u8>, Seq<u8>)>,
) -> Seq<(Seq<u8>, Seq<u8>)> {
    Seq::new(
        ms.len(),
        |j: int|
            (
                xor_seq(ms[j].0, cr_hash(j as u64, qcols[j])),
                xor_seq(ms[j].1, cr_hash(j as u64, xor_seq(qcols[j], s))),
            ),
    )
}

/// What the receiver outputs: the pad its choice bit selects, unmasked with
/// the hash of column `j` of its matrix.
pub open spec fn receiver_outputs_spec(
    r: Seq<u8>,
    tcols: Seq<Seq<u8>>,
    ys: Seq<(Seq<u8>, Seq<u8>)>,
) -> Seq<Seq<u8>> {
    Seq::new(
        ys.len(),
        |j: int|
            xor_seq(
                if row_bit(r, j) {
                    ys[j].1
                } else {
                    ys[j].0
                },
                cr_hash(j as u64, tcols[j]),
            ),
    )
}

/// A vector of `n` rows of `len` bytes each.
pub open spec fn rows_of(v: Seq<Vec<u8>>, n: nat, len: nat) -> bool {
    v.len() == n && forall|i: int| 0 <= i < n ==> #[trigger] v[i]@.len() == len
}

/// How a batch of OTs is carried out.
#[derive(Debug, Clone, Copy, PartialEq, Eq, Structural)]
pub enum Route {
    /// Run the base OT on each pair directly.
    Base,
    /// Extend 128 base OTs.
    Extension,
}

/// The route for a batch of `m` OTs: a count not divisible by 8 is refused;
/// up to 128 the base OT runs directly, above that the extension does.
pub fn route(m: usize) -> (r: Result<Route, OtError>)
    ensures
        m % 8 != 0 ==> r is Err && r->Err_0 == OtError::InvalidInput,
        m % 8 == 0 && m <= BASE_COUNT ==> r is Ok && r->Ok_0 == Route::Base,
        m % 8 == 0 && m > BASE_COUNT ==> r is Ok && r->Ok_0 == Route::Extension,
{
    if m % 8 != 0 {
        Err(OtError::InvalidInput)
    } else if m <= BASE_COUNT {
        Ok(Route::Base)
    } else {
        Ok(Route::Extension)
    }
}

/// The pairs as rows: first and second message of pair 0, then of pair 1,
/// and so on.
pub open spec fn pair_rows(ps: Seq<(Seq<u8>, Seq<u8>)>) -> Seq<Seq<u8>> {
    Seq::new(2 * ps.len(), |k: int| if k % 2 == 0 { ps[k / 2].0 } else { ps[k / 2].1 })
}

/// Rows taken two by two as `m` pairs.
pub open spec fn row_pairs(rows: Seq<Seq<u8>>, m: nat) -> Seq<(Seq<u8>, Seq<u8>)> {
    Seq::new(m, |j: int| (rows[2 * j], rows[2 * j + 1]))
}

/// What the stream gained at its end.
pub open spec fn appended(before: Seq<u8>, after: Seq<u8>) -> Seq<u8> {
    after.subrange(before.len() as int, after.len() as int)
}

/// A batch of `m` choices or messages that the extension can carry.
pub open spec fn extension_size(m: nat) -> bool {
    m % 8 == 0 && m > BASE_COUNT
}

/// Every row is `len` bytes long.
fn all_of_len(rows: &Vec<Vec<u8>>, len: usize) -> (r: bool)
    ensures
        r == forall|i: int| 0 <= i < rows@.len() ==> #[trigger] rows@[i]@.len() == len,
{
    let mut i: usize = 0;
    while i < rows.len()
        invariant
            i <= rows@.len(),
            forall|k: int| 0 <= k < i ==> #[trigger] rows@[k]@.len() == len,
        decreases rows@.len() - i,
    {
        if rows[i].len() != len {
            return false;
        }
        assert(rows@[i as int]@.len() == len);
        i = i + 1;
    }
    true
}

/// Both messages of every pair are blocks of 16 bytes.
fn all_blocks(ps: &Vec<(Vec<u8>, Vec<u8>)>) -> (r: bool)
    ensures
        r == blocks16(ps@),
{
    let mut j: usize = 0;
    while j < ps.len()
        invariant
            j <= ps@.len(),
            forall|k: int| 0 <= k < j ==> (#[trigger] ps@[k]).0@.len() == 16 && ps@[k].1@.len() == 16,
        decreases ps@.len() - j,
    {
        if ps[j].0.len() != 16 || ps[j].1.len() != 16 {
            return false;
        }
        assert(ps@[j as int].0@.len() == 16 && ps@[j as int].1@.len() == 16);
        j = j + 1;
    }
    assert(blocks16(ps@));
    true
}

/// The sender's fresh selection of `nbytes` bytes; its bits are the choices
/// it makes as receiver of the base OTs.
pub fn draw_selection(nbytes: usize) -> (s: Vec<u8>)
    ensures
        s@.len() == nbytes,
{
    random_bytes(nbytes)
}

/// The receiver's `n` fresh pairs of 32-byte seeds, which it sends through
/// the base OTs.
pub fn draw_seeds(n: usize) -> (r: (Vec<Vec<u8>>, Vec<Vec<u8>>))
    ensures
        rows_of(r.0@, n as nat, 32),
        rows_of(r.1@, n as nat, 32),
{
    let mut seeds0: Vec<Vec<u8>> = Vec::new();
    let mut seeds1: Vec<Vec<u8>> = Vec::new();
    let mut i: usize = 0;
    while i < n
        invariant
            i <= n,
            seeds0@.len() == i,
            seeds1@.len() == i,
            forall|k: int| 0 <= k < i ==> #[trigger] seeds0@[k]@.len() == 32,
            forall|k: int| 0 <= k < i ==> #[trigger] seeds1@[k]@.len() == 32,
        decreases n - i,
    {
        seeds0.push(random_bytes(SEED_LENGTH));
        seeds1.push(random_bytes(SEED_LENGTH));
        i = i + 1;
    }
    (seeds0, seeds1)
}

/// The receiver's step after the base OTs: writes its 128 masks and returns
/// the columns of its matrix. Fails with `InvalidInput` on a seed that is
/// not 32 bytes long, or on a count of choices that is not a multiple of 8
/// above 128.
pub fn receive_masks(
    stream: &mut Stream,
    seeds0: &Vec<Vec<u8>>,
    seeds1: &Vec<Vec<u8>>,
    r: &Vec<bool>,
) -> (res: Result<Vec<Vec<u8>>, OtError>)
    requires
        old(stream).wf(),
        r@.len() <= usize::MAX / 32,
    ensures
        final(stream).wf(),
        final(stream).unread() == old(stream).unread(),
        ({
            let nb = r@.len() / 8;
            let valid = rows_of(seeds0@, 128, 32) && rows_of(seeds1@, 128, 32) && extension_size(
                r@.len(),
            );
            &&& !valid ==> res is Err && res->Err_0 == OtError::InvalidInput && final(stream).written()
                == old(stream).written()
            &&& valid ==> res is Ok && rows_view(res->Ok_0@) == transpose_spec(
                receiver_matrix(rows_view(seeds0@), nb),
                nb,
            ) && final(stream).written().len() == old(stream).written().len() + 128 * nb
                && final(stream).written().subrange(0, old(stream).written().len() as int)
                == old(stream).written() && chunks(
                appended(old(stream).written(), final(stream).written()),
                128,
                nb,
            ) == receiver_masks(rows_view(seeds0@), rows_view(seeds1@), pack_spec(r@), nb)
        }),
{
    let m = r.len();
    if seeds0.len() != BASE_COUNT || seeds1.len() != BASE_COUNT || !all_of_len(seeds0, SEED_LENGTH)
        || !all_of_len(seeds1, SEED_LENGTH) || m % 8 != 0 || m <= BASE_COUNT {
        return Err(OtError::InvalidInput);
    }
    let (us, tcols) = receiver_extend(seeds0, seeds1, r);
    assert(rows_view(us@).len() == us@.len());
    assert forall|i: int| 0 <= i < us@.len() implies #[trigger] us@[i]@.len() == m / 8 by {
        assert(rows_view(us@)[i] == us@[i]@);
        assert(receiver_masks(
            rows_view(seeds0@),
            rows_view(seeds1@),
            pack_spec(r@),
            (m / 8) as nat,
        )[i].len() == m / 8);
    }
    assert(128 * (m / 8) <= usize::MAX) by (nonlinear_arith)
        requires
            m <= usize::MAX / 32,
    ;
    let bytes = concat_rows(&us, m / 8);
    let ghost w0 = stream.written();
    stream.write_bytes(&bytes);
    assert(appended(w0, stream.written()) =~= bytes@);
    assert(stream.written().subrange(0, w0.len() as int) =~= w0);
    Ok(tcols)
}

/// The sender's step after the base OTs: reads the receiver's 128 masks and
/// writes the masked pairs. Fails with `InvalidInput` on a seed that is not
/// 32 bytes long, a message that is not a 16-byte block, or a count of pairs
/// that is not a multiple of 8 above 128; with `Io` when the masks have not
/// all arrived.
pub fn send_pads(
    stream: &mut Stream,
    s: &Vec<u8>,
    ks: &Vec<Vec<u8>>,
    inputs: &Vec<(Vec<u8>, Vec<u8>)>,
) -> (res: Result<(), OtError>)
    requires
        old(stream).wf(),
        s@.len() == 16,
        inputs@.len() <= usize::MAX / 32,
    ensures
        final(stream).wf(),
        ({
            let m = inputs@.len();
            let nb = m / 8;
            let u = old(stream).unread();
            let valid = rows_of(ks@, 128, 32) && extension_size(m) && blocks16(inputs@);
            let qcols = transpose_spec(sender_matrix(s@, rows_view(ks@), chunks(u, 128, nb), nb), nb);
            &&& !valid ==> res is Err && res->Err_0 == OtError::InvalidInput && final(stream).unread()
                == u && final(stream).written() == old(stream).written()
            &&& valid && u.len() < 128 * nb ==> res is Err && res->Err_0 == OtError::Io
                && final(stream).written() == old(stream).written()
            &&& valid && u.len() >= 128 * nb ==> res is Ok && final(stream).unread() == u.subrange(
                (128 * nb) as int,
                u.len() as int,
            ) && final(stream).written().len() == old(stream).written().len() + 32 * m
                && final(stream).written().subrange(0, old(stream).written().len() as int)
                == old(stream).written() && chunks(
                appended(old(stream).written(), final(stream).written()),
                2 * m,
                16,
            ) == pair_rows(sender_pads_spec(s@, qcols, pairs_view(inputs@)))
        }),
{
    let m = inputs.len();
    if ks.len() != BASE_COUNT || !all_of_len(ks, SEED_LENGTH) || m % 8 != 0 || m <= BASE_COUNT
        || !all_blocks(inputs) {
        return Err(OtError::InvalidInput);
    }
    let nb = m / 8;
    let ghost u = stream.unread();
    let bytes = stream.read_bytes(BASE_COUNT * nb)?;
    let us = split_rows(&bytes, BASE_COUNT, nb);
    assert(bytes@ == u.subrange(0, (128 * nb) as int));
    assert(chunks(bytes@, 128, nb as nat) =~= chunks(u, 128, nb as nat)) by {
        assert forall|i: int| 0 <= i < 128 implies #[trigger] bytes@.subrange(
            i * nb,
            i * nb + nb,
        ) == u.subrange(i * nb, i * nb + nb) by {
            assert(i * nb + nb <= 128 * nb) by (nonlinear_arith)
                requires
                    i < 128,
            ;
            assert(0 <= i * nb) by (nonlinear_arith)
                requires
                    0 <= i,
            ;
            assert(bytes@.subrange(i * nb, i * nb + nb) =~= u.subrange(i * nb, i * nb + nb));
        }
    }
    let qcols = sender_extend(s, ks, &us, nb);
    proof {
        let qm = sender_matrix(s@, rows_view(ks@), rows_view(us@), nb as nat);
        assert(is_matrix(qm, nb as nat));
        assert(rows_view(qcols@).len() == qcols@.len());
        assert forall|j: int| 0 <= j < qcols@.len() implies #[trigger] qcols@[j]@.len() == 16 by {
            assert(rows_view(qcols@)[j] == qcols@[j]@);
            lemma_transpose_bit(qm, nb as nat, j, 0);
        }
    }
    let ys = sender_pads(s, &qcols, inputs);
    assert(pairs_view(ys@).len() == ys@.len());
    let rows = pairs_to_rows(&ys);
    let out = concat_rows(&rows, 16);
    let ghost w0 = stream.written();
    stream.write_bytes(&out);
    assert(appended(w0, stream.written()) =~= out@);
    assert(stream.written().subrange(0, w0.len() as int) =~= w0);
    Ok(())
}

/// The receiver's last step: reads the masked pairs and unmasks the one
/// that each choice bit selects. Fails with `InvalidInput` when the columns
/// are not one 16-byte block per choice, with `Io` when the pairs have not
/// all arrived.
pub fn receive_pads(stream: &mut Stream, r: &Vec<bool>, tcols: &Vec<Vec<u8>>) -> (res: Result<
    Vec<Vec<u8>>,
    OtError,
>)
    requires
        old(stream).wf(),
        r@.len() <= usize::MAX / 32,
    ensures
        final(stream).wf(),
        final(stream).written() == old(stream).written(),
        ({
            let m = r@.len();
            let u = old(stream).unread();
            let valid = rows_of(tcols@, m, 16);
            &&& !valid ==> res is Err && res->Err_0 == OtError::InvalidInput && final(stream).unread()
                == u
            &&& valid && u.len() < 32 * m ==> res is Err && res->Err_0 == OtError::Io
                && final(stream).unread() == u
            &&& valid && u.len() >= 32 * m ==> res is Ok && final(stream).unread() == u.subrange(
                (32 * m) as int,
                u.len() as int,
            ) && rows_view(res->Ok_0@) == receiver_outputs_spec(
                pack_spec(r@),
                rows_view(tcols@),
                row_pairs(chunks(u, 2 * m, 16), m),
            )
        }),
{
    let m = r.len();
    if tcols.len() != m || !all_of_len(tcols, 16) {
        return Err(OtError::InvalidInput);
    }
    let ghost u = stream.unread();
    let bytes = stream.read_bytes(32 * m)?;
    let rows = split_rows(&bytes, 2 * m, 16);
    assert(chunks(bytes@, 2 * m as nat, 16) =~= chunks(u, 2 * m as nat, 16)) by {
        assert forall|i: int| 0 <= i < 2 * m implies #[trigger] bytes@.subrange(
            i * 16,
            i * 16 + 16,
        ) == u.subrange(i * 16, i * 16 + 16) by {
            assert(bytes@.subrange(i * 16, i * 16 + 16) =~= u.subrange(i * 16, i * 16 + 16));
        }
    }
    let ys = rows_to_pairs(&rows);
    Ok(receiver_outputs(r, tcols, &ys))
}

fn pairs_to_rows(ps: &Vec<(Vec<u8>, Vec<u8>)>) -> (r: Vec<Vec<u8>>)
    requires
        ps@.len() <= usize::MAX / 32,
        blocks16(ps@),
    ensures
        rows_view(r@) == pair_rows(pairs_view(ps@)),
        forall|i: int| 0 <= i < r@.len() ==> #[trigger] r@[i]@.len() == 16,
        r@.len() == 2 * ps@.len(),
{
    let mut r: Vec<Vec<u8>> = Vec::with_capacity(2 * ps.len());
    let mut j: usize = 0;
    while j < ps.len()
        invariant
            j <= ps@.len(),
            ps@.len() <= usize::MAX / 32,
            blocks16(ps@),
            rows_view(r@) =~= pair_rows(pairs_view(ps@)).subrange(0, 2 * j),
            forall|i: int| 0 <= i < r@.len() ==> #[trigger] r@[i]@.len() == 16,
            r@.len() == 2 * j,
        decreases ps@.len() - j,
    {
        let ghost prev = r@;
        assert(ps@[j as int].0@.len() == 16);
        r.push(ps[j].0.clone());
        r.push(ps[j].1.clone());
        assert(rows_view(r@) =~= rows_view(prev).push(ps@[j as int].0@).push(ps@[j as int].1@));
        j = j + 1;
    }
    r
}

fn rows_to_pairs(rows: &Vec<Vec<u8>>) -> (r: Vec<(Vec<u8>, Vec<u8>)>)
    requires
        rows@.len() % 2 == 0,
        forall|i: int| 0 <= i < rows@.len() ==> #[trigger] rows@[i]@.len() == 16,
    ensures
        pairs_view(r@) == row_pairs(rows_view(rows@), rows@.len() / 2),
        blocks16(r@),
        r@.len() == rows@.len() / 2,
{
    let n = rows.len();
    let m = n / 2;
    let mut r: Vec<(Vec<u8>, Vec<u8>)> = Vec::with_capacity(m);
    let mut j: usize = 0;
    while j < m
        invariant
            m == rows@.len() / 2,
            rows@.len() % 2 == 0,
            2 * m == rows@.len(),
            n == rows@.len(),
            j <= m,
            forall|i: int| 0 <= i < rows@.len() ==> #[trigger] rows@[i]@.len() == 16,
            pairs_view(r@) =~= row_pairs(rows_view(rows@), m as nat).subrange(0, j as int),
            blocks16(r@),
            r@.len() == j,
        decreases m - j,
    {
        let ghost prev = r@;
        let a = rows[2 * j].clone();
        let b = rows[2 * j + 1].clone();
        let ghost pair = (a@, b@);
        r.push((a, b));
        assert(pairs_view(r@) =~= pairs_view(prev).push(pair));
        j = j + 1;
    }
    r
}

/// `t xor g xor r`, bytewise.
pub(crate) fn mask_row(t: &Vec<u8>, g: &Vec<u8>, r: &Vec<u8>) -> (u: Vec<u8>)
    requires
        t@.len() == g@.len(),
        t@.len() == r@.len(),
    ensures
        u@ == Seq::new(t@.len(), |p: int| t@[p] ^ g@[p] ^ r@[p]),
{
    let n = t.len();
    let mut u: Vec<u8> = Vec::with_capacity(n);
    let mut p: usize = 0;
    while p < n
        invariant
            p <= n,
            n == t@.len(),
            t@.len() == g@.len(),
            t@.len() == r@.len(),
            u@ =~= Seq::new(t@.len(), |p: int| t@[p] ^ g@[p] ^ r@[p]).subrange(0, p as int),
        decreases n - p,
    {
        u.push(t[p] ^ g[p] ^ r[p]);
        p = p + 1;
    }
    u
}

/// `u xor g` when `sel` holds, else `g`, bytewise.
fn select_row(sel: bool, u: &Vec<u8>, g: &Vec<u8>) -> (q: Vec<u8>)
    requires
        u@.len() == g@.len(),
    ensures
        q@ == Seq::new(g@.len(), |p: int| (if sel { u@[p] } else { 0u8 }) ^ g@[p]),
{
    let n = g.len();
    let mut q: Vec<u8> = Vec::with_capacity(n);
    let mut p: usize = 0;
    while p < n
        invariant
            p <= n,
            n == g@.len(),
            u@.len() == g@.len(),
            q@ =~= Seq::new(g@.len(), |p: int| (if sel { u@[p] } else { 0u8 }) ^ g@[p]).subrange(
                0,
                p as int,
            ),
        decreases n - p,
    {
        let a: u8 = if sel {
            u[p]
        } else {
            0u8
        };
        q.push(a ^ g[p]);
        p = p + 1;
    }
    q
}

/// The receiver's masks and the columns of its matrix, from its 128 pairs of
/// seeds and its `m` choice bits.
pub fn receiver_extend(seeds0: &Vec<Vec<u8>>, seeds1: &Vec<Vec<u8>>, r: &Vec<bool>) -> (res: (
    Vec<Vec<u8>>,
    Vec<Vec<u8>>,
))
    requires
        rows_of(seeds0@, 128, 32),
        rows_of(seeds1@, 128, 32),
        r@.len() % 8 == 0,
        r@.len() + 7 <= usize::MAX,
    ensures
        rows_view(res.0@) == receiver_masks(
            rows_view(seeds0@),
            rows_view(seeds1@),
            pack_spec(r@),
            r@.len() / 8,
        ),
        rows_view(res.1@) == transpose_spec(
            receiver_matrix(rows_view(seeds0@), r@.len() / 8),
            r@.len() / 8,
        ),
{
    let nb = r.len() / 8;
    let rp = pack_bits(r);
    assert(rp@.len() == nb);
    let ghost s0 = rows_view(seeds0@);
    let ghost s1 = rows_view(seeds1@);
    let mut us: Vec<Vec<u8>> = Vec::with_capacity(BASE_COUNT);
    let mut ts: Vec<Vec<u8>> = Vec::with_capacity(BASE_COUNT);
    let mut i: usize = 0;
    while i < BASE_COUNT
        invariant
            i <= BASE_COUNT,
            s0 == rows_view(seeds0@),
            s1 == rows_view(seeds1@),
            rows_of(seeds0@, 128, 32),
            rows_of(seeds1@, 128, 32),
            rp@ == pack_spec(r@),
            rp@.len() == nb,
            nb == r@.len() / 8,
            rows_view(us@) =~= receiver_masks(s0, s1, rp@, nb as nat).subrange(0, i as int),
            rows_view(ts@) =~= receiver_matrix(s0, nb as nat).subrange(0, i as int),
        decreases BASE_COUNT - i,
    {
        let t = prg(&seeds0[i], nb);
        let g = prg(&seeds1[i], nb);
        let u = mask_row(&t, &g, &rp);
        assert(u@ =~= u_row(s0[i as int], s1[i as int], rp@, nb as nat));
        assert(t@ =~= t_row(s0[i as int], nb as nat));
        let ghost (uv, tv, pu, pt) = (u@, t@, us@, ts@);
        us.push(u);
        ts.push(t);
        assert(rows_view(us@) =~= rows_view(pu).push(uv));
        assert(rows_view(ts@) =~= rows_view(pt).push(tv));
        i = i + 1;
    }
    assert(rows_view(ts@) =~= receiver_matrix(s0, nb as nat));
    assert(rows_view(us@) =~= receiver_masks(s0, s1, rp@, nb as nat));
    let cols = transpose(&ts, nb);
    (us, cols)
}

/// The columns of the sender's matrix, from its selection `s`, the seeds it
/// obtained from the base OTs and the masks it read, one of each per base OT.
pub fn sender_extend(s: &Vec<u8>, ks: &Vec<Vec<u8>>, us: &Vec<Vec<u8>>, nb: usize) -> (r: Vec<
    Vec<u8>,
>)
    requires
        ks@.len() % 8 == 0,
        s@.len() == ks@.len() / 8,
        rows_of(ks@, ks@.len(), 32),
        rows_of(us@, ks@.len(), nb as nat),
        8 * nb <= usize::MAX,
    ensures
        rows_view(r@) == transpose_spec(
            sender_matrix(s@, rows_view(ks@), rows_view(us@), nb as nat),
            nb as nat,
        ),
{
    let ghost kv = rows_view(ks@);
    let ghost uv = rows_view(us@);
    let mut qs: Vec<Vec<u8>> = Vec::with_capacity(ks.len());
    let mut i: usize = 0;
    while i < ks.len()
        invariant
            i <= ks@.len(),
            ks@.len() % 8 == 0,
            s@.len() == ks@.len() / 8,
            kv == rows_view(ks@),
            uv == rows_view(us@),
            rows_of(ks@, ks@.len(), 32),
            rows_of(us@, ks@.len(), nb as nat),
            rows_view(qs@) =~= sender_matrix(s@, kv, uv, nb as nat).subrange(0, i as int),
        decreases ks@.len() - i,
    {
        let sel = s[i / 8] & (1u8 << ((i % 8) as u8)) != 0;
        let g = prg(&ks[i], nb);
        let u = &us[i];
        let q = select_row(sel, u, &g);
        assert(q@ =~= q_row(sel, kv[i as int], uv[i as int], nb as nat));
        let ghost (qv, pq) = (q@, qs@);
        qs.push(q);
        assert(rows_view(qs@) =~= rows_view(pq).push(qv));
        i = i + 1;
    }
    assert(rows_view(qs@) =~= sender_matrix(s@, kv, uv, nb as nat));
    transpose(&qs, nb)
}

/// The pairs the sender sends: message pair `j` masked with the hashes of
/// column `j`, alone and XORed with `s`.
pub fn sender_pads(s: &Vec<u8>, qcols: &Vec<Vec<u8>>, inputs: &Vec<(Vec<u8>, Vec<u8>)>) -> (r: Vec<
    (Vec<u8>, Vec<u8>),
>)
    requires
        s@.len() == 16,
        rows_of(qcols@, inputs@.len(), 16),
        blocks16(inputs@),
    ensures
        pairs_view(r@) == sender_pads_spec(s@, rows_view(qcols@), pairs_view(inputs@)),
        blocks16(r@),
{
    let m = inputs.len();
    let mut ys: Vec<(Vec<u8>, Vec<u8>)> = Vec::with_capacity(m);
    let mut j: usize = 0;
    while j < m
        invariant
            j <= m,
            m == inputs@.len(),
            s@.len() == 16,
            rows_of(qcols@, inputs@.len(), 16),
            blocks16(inputs@),
            pairs_view(ys@) =~= sender_pads_spec(
                s@,
                rows_view(qcols@),
                pairs_view(inputs@),
            ).subrange(0, j as int),
            blocks16(ys@),
            ys@.len() == j,
        decreases m - j,
    {
        let q = &qcols[j];
        let h0 = hash(j as u64, q);
        let qs = xor(q, s);
        let h1 = hash(j as u64, &qs);
        let y0 = xor(&inputs[j].0, &h0);
        let y1 = xor(&inputs[j].1, &h1);
        let ghost py = ys@;
        let ghost pair = (y0@, y1@);
        assert(y0@.len() == 16 && y1@.len() == 16);
        ys.push((y0, y1));
        assert(pairs_view(ys@) =~= pairs_view(py).push(pair));
        assert(ys@[j as int].0@.len() == 16);
        j = j + 1;
    }
    ys
}

/// The receiver's outputs: at index `j` the pad that choice bit `j` selects,
/// unmasked with the hash of column `j` of its matrix.
pub fn receiver_outputs(r: &Vec<bool>, tcols: &Vec<Vec<u8>>, ys: &Vec<(Vec<u8>, Vec<u8>)>) -> (out:
    Vec<Vec<u8>>)
    requires
        r@.len() == ys@.len(),
        r@.len() + 7 <= usize::MAX,
        rows_of(tcols@, ys@.len(), 16),
        blocks16(ys@),
    ensures
        rows_view(out@) == receiver_outputs_spec(
            pack_spec(r@),
            rows_view(tcols@),
            pairs_view(ys@),
        ),
{
    let m = ys.len();
    let mut out: Vec<Vec<u8>> = Vec::with_capacity(m);
    let mut j: usize = 0;
    while j < m
        invariant
            j <= m,
            m == ys@.len(),
            r@.len() == m,
            rows_of(tcols@, ys@.len(), 16),
            blocks16(ys@),
            rows_view(out@) =~= receiver_outputs_spec(
                pack_spec(r@),
                rows_view(tcols@),
                pairs_view(ys@),
            ).subrange(0, j as int),
        decreases m - j,
    {
        proof {
            lemma_pack_bit(r@, j as int);
        }
        let h = hash(j as u64, &tcols[j]);
        assert(ys@[j as int].0@.len() == 16 && ys@[j as int].1@.len() == 16);
        let y = if r[j] {
            &ys[j].1
        } else {
            &ys[j].0
        };
        let o = xor(y, &h);
        let ghost po = out@;
        let ghost ov = o@;
        out.push(o);
        assert(rows_view(out@) =~= rows_view(po).push(ov));
        j = j + 1;
    }
    out
}

/// XORing the same bytes twice cancels.
pub proof fn lemma_xor_cancel(a: Seq<u8>, b: Seq<u8>)
    ensures
        xor_seq(xor_seq(a, b), b) == a,
{
    assert forall|p: int| 0 <= p < a.len() implies xor_seq(xor_seq(a, b), b)[p] == a[p] by {
        let x = a[p];
        let y = b[p];
        assert((x ^ y) ^ y == x) by (bit_vector);
    }
    assert(xor_seq(xor_seq(a, b), b) =~= a);
}

/// One row of the sender's matrix, when it obtained the seed its selection
/// bit chose: the receiver's row, XORed with `r` where the bit is set.
pub proof fn lemma_row_select(sel: bool, seed0: Seq<u8>, seed1: Seq<u8>, r: Seq<u8>, nb: nat)
    ensures
        q_row(sel, if sel { seed1 } else { seed0 }, u_row(seed0, seed1, r, nb), nb) == if sel {
            xor_seq(t_row(seed0, nb), r)
        } else {
            t_row(seed0, nb)
        },
{
    let q = q_row(sel, if sel { seed1 } else { seed0 }, u_row(seed0, seed1, r, nb), nb);
    let t = t_row(seed0, nb);
    if sel {
        assert forall|p: int| 0 <= p < nb implies q[p] == xor_seq(t, r)[p] by {
            let a = prg_bytes(seed0, nb)[p];
            let g = prg_bytes(seed1, nb)[p];
            let c = r[p];
            assert((a ^ g ^ c) ^ g == a ^ c) by (bit_vector);
        }
        assert(q =~= xor_seq(t, r));
    } else {
        assert forall|p: int| 0 <= p < nb implies q[p] == t[p] by {
            let a = prg_bytes(seed0, nb)[p];
            assert(0u8 ^ a == a) by (bit_vector);
        }
        assert(q =~= t);
    }
}

/// Extension correctness: when the sender obtained from each base OT the
/// seed that its selection bit chose, the receiver's output at each index
/// `j` is the message that its choice bit `j` selects.
pub proof fn lemma_extension_correct(
    s: Seq<u8>,
    seeds0: Seq<Seq<u8>>,
    seeds1: Seq<Seq<u8>>,
    r: Seq<u8>,
    ms: Seq<(Seq<u8>, Seq<u8>)>,
)
    requires
        s.len() == 16,
        seeds0.len() == 128,
        seeds1.len() == 128,
        ms.len() == 8 * r.len(),
    ensures
        ({
            let nb = r.len();
            let ks = Seq::new(128, |i: int| if row_bit(s, i) { seeds1[i] } else { seeds0[i] });
            let us = receiver_masks(seeds0, seeds1, r, nb);
            let qcols = transpose_spec(sender_matrix(s, ks, us, nb), nb);
            let tcols = transpose_spec(receiver_matrix(seeds0, nb), nb);
            receiver_outputs_spec(r, tcols, sender_pads_spec(s, qcols, ms)) == Seq::new(
                ms.len(),
                |j: int| if row_bit(r, j) { ms[j].1 } else { ms[j].0 },
            )
        }),
{
    let nb = r.len();
    let ks = Seq::new(128, |i: int| if row_bit(s, i) { seeds1[i] } else { seeds0[i] });
    let us = receiver_masks(seeds0, seeds1, r, nb);
    let qm = sender_matrix(s, ks, us, nb);
    let tm = receiver_matrix(seeds0, nb);
    let qcols = transpose_spec(qm, nb);
    let tcols = transpose_spec(tm, nb);
    assert(is_matrix(qm, nb));
    assert(is_matrix(tm, nb));
    assert forall|j: int| 0 <= j < 8 * nb implies qcols[j] == if row_bit(r, j) {
        xor_seq(tcols[j], s)
    } else {
        tcols[j]
    } by {
        let want = if row_bit(r, j) {
            xor_seq(tcols[j], s)
        } else {
            tcols[j]
        };
        assert forall|i: int| 0 <= i < 8 * qcols[j].len() implies row_bit(qcols[j], i)
            == row_bit(want, i) by {
            lemma_transpose_bit(qm, nb, j, i);
            lemma_transpose_bit(tm, nb, j, i);
            lemma_row_select(row_bit(s, i), seeds0[i], seeds1[i], r, nb);
            lemma_row_bit_xor(tm[i], r, j);
            lemma_row_bit_xor(tcols[j], s, i);
        }
        lemma_transpose_bit(qm, nb, j, 0);
        lemma_transpose_bit(tm, nb, j, 0);
        lemma_row_ext(qcols[j], want);
    }
    let ys = sender_pads_spec(s, qcols, ms);
    let out = receiver_outputs_spec(r, tcols, ys);
    let want = Seq::new(ms.len(), |j: int| if row_bit(r, j) { ms[j].1 } else { ms[j].0 });
    assert forall|j: int| 0 <= j < ms.len() implies out[j] == want[j] by {
        if row_bit(r, j) {
            lemma_xor_cancel(tcols[j], s);
            lemma_xor_cancel(ms[j].1, cr_hash(j as u64, tcols[j]));
        } else {
            lemma_xor_cancel(ms[j].0, cr_hash(j as u64, tcols[j]));
        }
    }
    assert(out =~= want);
}

} // verus!
