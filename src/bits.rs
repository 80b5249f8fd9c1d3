//! Bit-level views of byte strings, XOR, packing of choice vectors and the
//! bit-matrix transpose.

use vstd::prelude::*;

verus! {

/// Bit `k` (0 = least significant) of the byte `x`.
pub open spec fn bit8(x: u8, k: u8) -> bool {
    x & (1u8 << k) != 0
}

/// Bit `i` of a packed byte string, little-endian within each byte.
pub open spec fn row_bit(row: Seq<u8>, i: int) -> bool {
    bit8(row[i / 8], (i % 8) as u8)
}

/// Pointwise XOR of two byte strings of equal length.
pub open spec fn xor_seq(a: Seq<u8>, b: Seq<u8>) -> Seq<u8> {
    Seq::new(a.len(), |i: int| a[i] ^ b[i])
}

pub proof fn lemma_bit_or(x: u8, k: u8, k2: u8)
    requires
        k < 8,
        k2 < 8,
    ensures
        bit8(x | (1u8 << k), k2) == (k == k2 || bit8(x, k2)),
{
    assert(((x | (1u8 << k)) & (1u8 << k2) != 0) == (k == k2 || x & (1u8 << k2) != 0))
        by (bit_vector)
        requires
            k < 8,
            k2 < 8,
    ;
}

pub proof fn lemma_bit_zero(k: u8)
    requires
        k < 8,
    ensures
        !bit8(0u8, k),
{
    assert(0u8 & (1u8 << k) == 0) by (bit_vector);
}

pub proof fn lemma_bit_xor(x: u8, y: u8, k: u8)
    requires
        k < 8,
    ensures
        bit8(x ^ y, k) == (bit8(x, k) != bit8(y, k)),
{
    assert(((x ^ y) & (1u8 << k) != 0) == ((x & (1u8 << k) != 0) != (y & (1u8 << k) != 0)))
        by (bit_vector)
        requires
            k < 8,
    ;
}

/// A byte is determined by its eight bits.
pub proof fn lemma_byte_ext(x: u8, y: u8)
    requires
        forall|k: u8| k < 8 ==> bit8(x, k) == bit8(y, k),
    ensures
        x == y,
{
    assert(bit8(x, 0) == bit8(y, 0));
    assert(bit8(x, 1) == bit8(y, 1));
    assert(bit8(x, 2) == bit8(y, 2));
    assert(bit8(x, 3) == bit8(y, 3));
    assert(bit8(x, 4) == bit8(y, 4));
    assert(bit8(x, 5) == bit8(y, 5));
    assert(bit8(x, 6) == bit8(y, 6));
    assert(bit8(x, 7) == bit8(y, 7));
    assert(x == y) by (bit_vector)
        requires
            (x & (1u8 << 0u8) != 0) == (y & (1u8 << 0u8) != 0),
            (x & (1u8 << 1u8) != 0) == (y & (1u8 << 1u8) != 0),
            (x & (1u8 << 2u8) != 0) == (y & (1u8 << 2u8) != 0),
            (x & (1u8 << 3u8) != 0) == (y & (1u8 << 3u8) != 0),
            (x & (1u8 << 4u8) != 0) == (y & (1u8 << 4u8) != 0),
            (x & (1u8 << 5u8) != 0) == (y & (1u8 << 5u8) != 0),
            (x & (1u8 << 6u8) != 0) == (y & (1u8 << 6u8) != 0),
            (x & (1u8 << 7u8) != 0) == (y & (1u8 << 7u8) != 0),
    ;
}

/// Two byte strings of one length with the same bits are equal.
pub proof fn lemma_row_ext(a: Seq<u8>, b: Seq<u8>)
    requires
        a.len() == b.len(),
        forall|i: int| 0 <= i < 8 * a.len() ==> row_bit(a, i) == row_bit(b, i),
    ensures
        a == b,
{
    assert forall|p: int| 0 <= p < a.len() implies a[p] == b[p] by {
        assert forall|k: u8| k < 8 implies bit8(a[p], k) == bit8(b[p], k) by {
            let i = 8 * p + k;
            assert(i / 8 == p && i % 8 == k) by (nonlinear_arith)
                requires
                    i == 8 * p + k,
                    0 <= k < 8,
            ;
            assert(row_bit(a, i) == row_bit(b, i));
        }
        lemma_byte_ext(a[p], b[p]);
    }
    assert(a =~= b);
}

/// The byte strings held by a vector of rows.
pub open spec fn rows_view(v: Seq<Vec<u8>>) -> Seq<Seq<u8>> {
    Seq::new(v.len(), |i: int| v[i]@)
}

/// A matrix of `x.len()` rows, each `nbytes` bytes long.
pub open spec fn is_matrix(x: Seq<Seq<u8>>, nbytes: nat) -> bool {
    x.len() % 8 == 0 && forall|i: int| 0 <= i < x.len() ==> #[trigger] x[i].len() == nbytes
}

/// The first `n` bits of byte `b` of row `j` of the transpose of `x`: bit `k`
/// is bit `j` of row `8 * b + k` of `x`.
pub open spec fn gather_byte(x: Seq<Seq<u8>>, j: int, b: int, n: nat) -> u8
    decreases n,
{
    if n == 0 {
        0u8
    } else {
        gather_byte(x, j, b, (n - 1) as nat) | (if row_bit(x[8 * b + n - 1], j) {
            1u8 << ((n - 1) as u8)
        } else {
            0u8
        })
    }
}

/// The transpose of a bit matrix of `x.len()` rows and `8 * nbytes` columns:
/// `8 * nbytes` rows of `x.len() / 8` bytes.
pub open spec fn transpose_spec(x: Seq<Seq<u8>>, nbytes: nat) -> Seq<Seq<u8>> {
    Seq::new(
        8 * nbytes,
        |j: int| Seq::new(x.len() / 8, |b: int| gather_byte(x, j, b, 8)),
    )
}

proof fn lemma_gather_bits(x: Seq<Seq<u8>>, j: int, b: int, n: nat, k: u8)
    requires
        n <= 8,
        k < 8,
    ensures
        bit8(gather_byte(x, j, b, n), k) == (k < n && row_bit(x[8 * b + k], j)),
    decreases n,
{
    if n == 0 {
        lemma_bit_zero(k);
    } else {
        let prev = gather_byte(x, j, b, (n - 1) as nat);
        lemma_gather_bits(x, j, b, (n - 1) as nat, k);
        let m = (n - 1) as u8;
        if row_bit(x[8 * b + n - 1], j) {
            lemma_bit_or(prev, m, k);
        } else {
            assert(prev | 0u8 == prev) by (bit_vector);
        }
    }
}

/// Bit `i` of row `j` of the transpose is bit `j` of row `i`.
pub proof fn lemma_transpose_bit(x: Seq<Seq<u8>>, nbytes: nat, j: int, i: int)
    requires
        is_matrix(x, nbytes),
        0 <= j < 8 * nbytes,
        0 <= i < x.len(),
    ensures
        transpose_spec(x, nbytes)[j].len() == x.len() / 8,
        row_bit(transpose_spec(x, nbytes)[j], i) == row_bit(x[i], j),
{
    let b = i / 8;
    let k = (i % 8) as u8;
    assert(0 <= b < x.len() / 8);
    lemma_gather_bits(x, j, b, 8, k);
    assert(8 * b + k == i);
}

/// Transposing twice gives back the matrix.
pub proof fn lemma_transpose_involution(x: Seq<Seq<u8>>, nbytes: nat)
    requires
        is_matrix(x, nbytes),
    ensures
        is_matrix(transpose_spec(x, nbytes), x.len() / 8),
        transpose_spec(transpose_spec(x, nbytes), x.len() / 8) == x,
{
    let t = transpose_spec(x, nbytes);
    let n8 = x.len() / 8;
    assert((8 * nbytes) % 8 == 0) by (nonlinear_arith);
    assert(is_matrix(t, n8));
    let t2 = transpose_spec(t, n8);
    assert((8 * nbytes) / 8 == nbytes) by (nonlinear_arith);
    assert(8 * n8 == x.len());
    assert forall|i: int| 0 <= i < x.len() implies t2[i] == x[i] by {
        assert forall|jj: int| 0 <= jj < 8 * t2[i].len() implies row_bit(t2[i], jj) == row_bit(
            x[i],
            jj,
        ) by {
            lemma_transpose_bit(t, n8, i, jj);
            lemma_transpose_bit(x, nbytes, jj, i);
        }
        lemma_row_ext(t2[i], x[i]);
    }
    assert(t2 =~= x);
}

/// Transposes a bit matrix of `x.len()` rows of `nbytes` bytes into
/// `8 * nbytes` rows of `x.len() / 8` bytes.
pub fn transpose(x: &Vec<Vec<u8>>, nbytes: usize) -> (r: Vec<Vec<u8>>)
    requires
        is_matrix(rows_view(x@), nbytes as nat),
        8 * nbytes <= usize::MAX,
    ensures
        rows_view(r@) == transpose_spec(rows_view(x@), nbytes as nat),
{
    let ghost xs = rows_view(x@);
    let nrows = x.len();
    let ncols = 8 * nbytes;
    let mut r: Vec<Vec<u8>> = Vec::with_capacity(ncols);
    let mut j: usize = 0;
    while j < ncols
        invariant
            xs == rows_view(x@),
            is_matrix(xs, nbytes as nat),
            nrows == x.len(),
            ncols == 8 * nbytes,
            j <= ncols,
            rows_view(r@) =~= transpose_spec(xs, nbytes as nat).subrange(0, j as int),
        decreases ncols - j,
    {
        let mut row: Vec<u8> = Vec::with_capacity(nrows / 8);
        let mut b: usize = 0;
        while b < nrows / 8
            invariant
                xs == rows_view(x@),
                is_matrix(xs, nbytes as nat),
                nrows == x.len(),
                ncols == 8 * nbytes,
                j < ncols,
                b <= nrows / 8,
                row@ =~= Seq::new(b as nat, |bb: int| gather_byte(xs, j as int, bb, 8)),
            decreases nrows / 8 - b,
        {
            let mut acc: u8 = 0;
            let mut k: usize = 0;
            while k < 8
                invariant
                    xs == rows_view(x@),
                    is_matrix(xs, nbytes as nat),
                    nrows == x.len(),
                    ncols == 8 * nbytes,
                    j < ncols,
                    b < nrows / 8,
                    k <= 8,
                    acc == gather_byte(xs, j as int, b as int, k as nat),
                decreases 8 - k,
            {
                assert(8 * b + k < nrows) by (nonlinear_arith)
                    requires
                        b < nrows / 8,
                        k < 8,
                ;
                let src = &x[8 * b + k];
                assert(src@ == xs[8 * b + k]);
                assert(j / 8 < nbytes);
                let set = src[j / 8] & (1u8 << ((j % 8) as u8)) != 0;
                acc = acc | (if set {
                    1u8 << (k as u8)
                } else {
                    0u8
                });
                k = k + 1;
            }
            row.push(acc);
            b = b + 1;
        }
        assert(row@ =~= transpose_spec(xs, nbytes as nat)[j as int]);
        let ghost prev = r@;
        let ghost row_v = row@;
        r.push(row);
        assert(rows_view(r@) =~= rows_view(prev).push(row_v));
        j = j + 1;
    }
    r
}

/// The first `n` bits of byte `b` of the packing of `bits`.
pub open spec fn pack_byte(bits: Seq<bool>, b: int, n: nat) -> u8
    decreases n,
{
    if n == 0 {
        0u8
    } else {
        pack_byte(bits, b, (n - 1) as nat) | (if 8 * b + n - 1 < bits.len() && bits[8 * b + n
            - 1] {
            1u8 << ((n - 1) as u8)
        } else {
            0u8
        })
    }
}

/// `bits` packed into bytes, little-endian within each byte, the last byte
/// filled up with zero bits.
pub open spec fn pack_spec(bits: Seq<bool>) -> Seq<u8> {
    Seq::new((bits.len() + 7) / 8, |b: int| pack_byte(bits, b, 8))
}

/// The first `nbits` bits of a packed byte string.
pub open spec fn unpack_spec(bytes: Seq<u8>, nbits: nat) -> Seq<bool> {
    Seq::new(nbits, |i: int| row_bit(bytes, i))
}

proof fn lemma_pack_byte_bits(bits: Seq<bool>, b: int, n: nat, k: u8)
    requires
        n <= 8,
        k < 8,
    ensures
        bit8(pack_byte(bits, b, n), k) == (k < n && 8 * b + k < bits.len() && bits[8 * b + k]),
    decreases n,
{
    if n == 0 {
        lemma_bit_zero(k);
    } else {
        let prev = pack_byte(bits, b, (n - 1) as nat);
        lemma_pack_byte_bits(bits, b, (n - 1) as nat, k);
        if 8 * b + n - 1 < bits.len() && bits[8 * b + n - 1] {
            lemma_bit_or(prev, (n - 1) as u8, k);
        } else {
            assert(prev | 0u8 == prev) by (bit_vector);
        }
    }
}

/// Bit `i` of the packing is the `i`-th bit packed.
pub proof fn lemma_pack_bit(bits: Seq<bool>, i: int)
    requires
        0 <= i < bits.len(),
    ensures
        row_bit(pack_spec(bits), i) == bits[i],
{
    lemma_pack_byte_bits(bits, i / 8, 8, (i % 8) as u8);
}

/// Pointwise AND of two byte strings.
pub open spec fn and_seq(a: Seq<u8>, b: Seq<u8>) -> Seq<u8> {
    Seq::new(a.len(), |i: int| a[i] & b[i])
}

/// Bit `i` of an AND is the AND of the bits.
pub proof fn lemma_row_bit_and(a: Seq<u8>, b: Seq<u8>, i: int)
    requires
        0 <= i < 8 * a.len(),
    ensures
        row_bit(and_seq(a, b), i) == (row_bit(a, i) && row_bit(b, i)),
{
    let x = a[i / 8];
    let y = b[i / 8];
    let k = (i % 8) as u8;
    assert(((x & y) & (1u8 << k) != 0) == ((x & (1u8 << k) != 0) && (y & (1u8 << k) != 0)))
        by (bit_vector)
        requires
            k < 8,
    ;
}

/// Bit `i` of a XOR is the XOR of the bits.
pub proof fn lemma_row_bit_xor(a: Seq<u8>, b: Seq<u8>, i: int)
    requires
        0 <= i < 8 * a.len(),
    ensures
        row_bit(xor_seq(a, b), i) == (row_bit(a, i) != row_bit(b, i)),
{
    lemma_bit_xor(a[i / 8], b[i / 8], (i % 8) as u8);
}

/// Packs bits into bytes, little-endian within each byte.
pub fn pack_bits(bits: &Vec<bool>) -> (r: Vec<u8>)
    requires
        bits@.len() + 7 <= usize::MAX,
    ensures
        r@ == pack_spec(bits@),
{
    let n = bits.len();
    let nbytes = (n + 7) / 8;
    let mut r: Vec<u8> = Vec::with_capacity(nbytes);
    let mut b: usize = 0;
    while b < nbytes
        invariant
            n == bits@.len(),
            nbytes == (n + 7) / 8,
            b <= nbytes,
            r@ =~= pack_spec(bits@).subrange(0, b as int),
        decreases nbytes - b,
    {
        let mut acc: u8 = 0;
        let mut k: usize = 0;
        while k < 8
            invariant
                n == bits@.len(),
                nbytes == (n + 7) / 8,
                b < nbytes,
                k <= 8,
                acc == pack_byte(bits@, b as int, k as nat),
            decreases 8 - k,
        {
            let set = 8 * b + k < n && bits[8 * b + k];
            acc = acc | (if set {
                1u8 << (k as u8)
            } else {
                0u8
            });
            k = k + 1;
        }
        r.push(acc);
        b = b + 1;
    }
    r
}

/// Reads the first `nbits` bits of a packed byte string.
pub fn unpack_bits(bytes: &Vec<u8>, nbits: usize) -> (r: Vec<bool>)
    requires
        nbits <= 8 * bytes@.len(),
    ensures
        r@ == unpack_spec(bytes@, nbits as nat),
{
    let mut r: Vec<bool> = Vec::with_capacity(nbits);
    let mut i: usize = 0;
    while i < nbits
        invariant
            nbits <= 8 * bytes@.len(),
            i <= nbits,
            r@ =~= unpack_spec(bytes@, nbits as nat).subrange(0, i as int),
        decreases nbits - i,
    {
        r.push(bytes[i / 8] & (1u8 << ((i % 8) as u8)) != 0);
        i = i + 1;
    }
    r
}

/// The bytes of `v` from `lo` up to `hi`.
pub fn slice_of(v: &Vec<u8>, lo: usize, hi: usize) -> (r: Vec<u8>)
    requires
        lo <= hi <= v@.len(),
    ensures
        r@ == v@.subrange(lo as int, hi as int),
{
    let mut r: Vec<u8> = Vec::with_capacity(hi - lo);
    let mut i: usize = lo;
    while i < hi
        invariant
            lo <= i <= hi <= v@.len(),
            r@ =~= v@.subrange(lo as int, i as int),
        decreases hi - i,
    {
        r.push(v[i]);
        i = i + 1;
    }
    r
}

/// The `n` consecutive pieces of `len` bytes at the start of `b`.
pub open spec fn chunks(b: Seq<u8>, n: nat, len: nat) -> Seq<Seq<u8>> {
    Seq::new(n, |i: int| b.subrange(i * len, i * len + len))
}

/// The rows, each `len` bytes long, written one after the other.
pub fn concat_rows(rows: &Vec<Vec<u8>>, len: usize) -> (r: Vec<u8>)
    requires
        forall|i: int| 0 <= i < rows@.len() ==> #[trigger] rows@[i]@.len() == len,
        rows@.len() * len <= usize::MAX,
    ensures
        r@.len() == rows@.len() * len,
        chunks(r@, rows@.len(), len as nat) == rows_view(rows@),
{
    let n = rows.len();
    let mut r: Vec<u8> = Vec::new();
    let mut i: usize = 0;
    while i < n
        invariant
            n == rows@.len(),
            i <= n,
            forall|i: int| 0 <= i < rows@.len() ==> #[trigger] rows@[i]@.len() == len,
            n * len <= usize::MAX,
            r@.len() == i * len,
            chunks(r@, i as nat, len as nat) =~= rows_view(rows@).subrange(0, i as int),
        decreases n - i,
    {
        let ghost prev = r@;
        let row = &rows[i];
        let mut p: usize = 0;
        while p < len
            invariant
                p <= len,
                row@.len() == len,
                r@ =~= prev + row@.subrange(0, p as int),
            decreases len - p,
        {
            r.push(row[p]);
            p = p + 1;
        }
        assert(r@ =~= prev + row@);
        assert((i + 1) * len == i * len + len) by (nonlinear_arith);
        assert forall|k: int| 0 <= k < i + 1 implies #[trigger] r@.subrange(k * len, k * len + len)
            == rows_view(rows@)[k] by {
            if k < i {
                assert(k * len + len <= i * len) by (nonlinear_arith)
                    requires
                        k < i,
                ;
                assert(0 <= k * len) by (nonlinear_arith)
                    requires
                        0 <= k,
                ;
                assert(chunks(prev, i as nat, len as nat)[k] == rows_view(rows@).subrange(
                    0,
                    i as int,
                )[k]);
                assert(r@.subrange(k * len, k * len + len) =~= prev.subrange(
                    k * len,
                    k * len + len,
                ));
            } else {
                assert(r@.subrange(k * len, k * len + len) =~= row@);
            }
        }
        assert(chunks(r@, (i + 1) as nat, len as nat) =~= rows_view(rows@).subrange(
            0,
            i + 1,
        ));
        assert(i * len + len <= n * len) by (nonlinear_arith)
            requires
                i < n,
        ;
        i = i + 1;
    }
    assert(rows_view(rows@).subrange(0, n as int) =~= rows_view(rows@));
    r
}

/// Cuts `n * len` bytes into `n` rows of `len` bytes.
pub fn split_rows(b: &Vec<u8>, n: usize, len: usize) -> (r: Vec<Vec<u8>>)
    requires
        b@.len() == n * len,
    ensures
        rows_view(r@) == chunks(b@, n as nat, len as nat),
        forall|i: int| 0 <= i < n ==> #[trigger] r@[i]@.len() == len,
        r@.len() == n,
{
    let total = b.len();
    let mut r: Vec<Vec<u8>> = Vec::with_capacity(n);
    let mut i: usize = 0;
    while i < n
        invariant
            b@.len() == n * len,
            total == b@.len(),
            i <= n,
            rows_view(r@) =~= chunks(b@, n as nat, len as nat).subrange(0, i as int),
            forall|k: int| 0 <= k < i ==> #[trigger] r@[k]@.len() == len,
            r@.len() == i,
        decreases n - i,
    {
        assert(i * len + len <= n * len) by (nonlinear_arith)
            requires
                i < n,
        ;
        assert(0 <= i * len) by (nonlinear_arith);
        let lo = i * len;
        let row = slice_of(b, lo, lo + len);
        let ghost prev = r@;
        let ghost rv = row@;
        r.push(row);
        assert(rows_view(r@) =~= rows_view(prev).push(rv));
        i = i + 1;
    }
    r
}

/// Pointwise XOR of two byte strings.
pub fn xor(a: &Vec<u8>, b: &Vec<u8>) -> (r: Vec<u8>)
    requires
        a.len() == b.len(),
    ensures
        r@ == xor_seq(a@, b@),
{
    let mut r: Vec<u8> = Vec::with_capacity(a.len());
    let mut i: usize = 0;
    while i < a.len()
        invariant
            i <= a.len(),
            a.len() == b.len(),
            r@ =~= xor_seq(a@, b@).subrange(0, i as int),
        decreases a.len() - i,
    {
        r.push(a[i] ^ b[i]);
        i = i + 1;
    }
    assert(r@ =~= xor_seq(a@, b@));
    r
}

} // verus!
