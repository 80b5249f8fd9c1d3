//! The wire codec: what one party reads from and writes to the channel,
//! held in memory. Bytes that arrived are read in order; what is written
//! gathers until it is taken out to be sent.

use crate::bits::{pack_bits, pack_spec, unpack_bits, unpack_spec};
use crate::error::OtError;
use crate::group::{point_decodes, ristretto_decodes, POINT_SIZE};
use vstd::prelude::*;

verus! {

/// Byte `i` of the little-endian encoding of `x`.
pub open spec fn le_byte(x: u128, i: int) -> u8 {
    ((x >> ((8 * i) as u128)) & 0xffu128) as u8
}

/// The 16-byte little-endian encoding of `x`.
pub open spec fn le_bytes(x: u128) -> Seq<u8> {
    Seq::new(16, |i: int| le_byte(x, i))
}

proof fn lemma_or_byte_keeps(acc: u128, b: u128, s: u128, t: u128)
    requires
        s <= 120,
        b < 256,
        acc >> s == 0,
        t + 8 <= s,
    ensures
        ((acc | (b << s)) >> t) & 0xffu128 == (acc >> t) & 0xffu128,
{
    assert(((acc | (b << s)) >> t) & 0xffu128 == (acc >> t) & 0xffu128) by (bit_vector)
        requires
            s <= 120,
            b < 256,
            acc >> s == 0,
            t + 8 <= s,
    ;
}

proof fn lemma_or_byte_adds(acc: u128, b: u128, s: u128)
    requires
        s <= 120,
        b < 256,
        acc >> s == 0,
    ensures
        ((acc | (b << s)) >> s) & 0xffu128 == b,
        s < 120 ==> (acc | (b << s)) >> (s + 8) == 0,
{
    assert(((acc | (b << s)) >> s) & 0xffu128 == b) by (bit_vector)
        requires
            s <= 120,
            b < 256,
            acc >> s == 0,
    ;
    assert(s < 120 ==> (acc | (b << s)) >> (s + 8) == 0) by (bit_vector)
        requires
            s <= 120,
            b < 256,
            acc >> s == 0,
    ;
}

/// One party's end of the channel.
pub struct Stream {
    input: Vec<u8>,
    pos: usize,
    output: Vec<u8>,
}

fn append(out: &mut Vec<u8>, bytes: &Vec<u8>)
    ensures
        final(out)@ == old(out)@ + bytes@,
{
    let mut i: usize = 0;
    while i < bytes.len()
        invariant
            i <= bytes@.len(),
            out@ == old(out)@ + bytes@.subrange(0, i as int),
        decreases bytes@.len() - i,
    {
        out.push(bytes[i]);
        i = i + 1;
        assert(out@ =~= old(out)@ + bytes@.subrange(0, i as int));
    }
    assert(bytes@.subrange(0, bytes@.len() as int) =~= bytes@);
}

impl Stream {
    /// The stream is consistent: its read position lies within what arrived.
    pub closed spec fn wf(&self) -> bool {
        self.pos <= self.input@.len()
    }

    /// The bytes that arrived and are not read yet.
    pub closed spec fn unread(&self) -> Seq<u8> {
        self.input@.subrange(self.pos as int, self.input@.len() as int)
    }

    /// The bytes written and not taken out yet.
    pub closed spec fn written(&self) -> Seq<u8> {
        self.output@
    }

    /// A stream over the bytes that arrived, with nothing written.
    pub fn new(input: Vec<u8>) -> (s: Stream)
        ensures
            s.wf(),
            s.unread() == input@,
            s.written() == Seq::<u8>::empty(),
    {
        let s = Stream { input, pos: 0, output: Vec::new() };
        assert(s.unread() =~= s.input@);
        s
    }

    /// Takes out what was written, to be sent.
    pub fn stream(&mut self) -> (r: Vec<u8>)
        requires
            old(self).wf(),
        ensures
            final(self).wf(),
            r@ == old(self).written(),
            final(self).written() == Seq::<u8>::empty(),
            final(self).unread() == old(self).unread(),
    {
        let mut r: Vec<u8> = Vec::new();
        std::mem::swap(&mut r, &mut self.output);
        r
    }

    /// Writes the bytes as they are; returns how many.
    pub fn write_bytes(&mut self, bytes: &Vec<u8>) -> (n: usize)
        requires
            old(self).wf(),
        ensures
            final(self).wf(),
            n == bytes@.len(),
            final(self).written() == old(self).written() + bytes@,
            final(self).unread() == old(self).unread(),
    {
        append(&mut self.output, bytes);
        bytes.len()
    }

    /// Reads the next `nbytes` bytes; fails with `Io`, reading nothing, when
    /// fewer arrived.
    pub fn read_bytes(&mut self, nbytes: usize) -> (r: Result<Vec<u8>, OtError>)
        requires
            old(self).wf(),
        ensures
            final(self).wf(),
            final(self).written() == old(self).written(),
            nbytes <= old(self).unread().len() ==> r is Ok && r->Ok_0@ == old(self).unread().subrange(
                0,
                nbytes as int,
            ) && final(self).unread() == old(self).unread().subrange(
                nbytes as int,
                old(self).unread().len() as int,
            ),
            nbytes > old(self).unread().len() ==> r is Err && r->Err_0 == OtError::Io
                && final(self).unread() == old(self).unread(),
    {
        if nbytes > self.input.len() - self.pos {
            return Err(OtError::Io);
        }
        let start = self.pos;
        let input = &self.input;
        let end: usize = start + nbytes;
        let mut r: Vec<u8> = Vec::with_capacity(nbytes);
        let mut i: usize = 0;
        while i < nbytes
            invariant
                end == start + nbytes,
                end <= input@.len(),
                i <= nbytes,
                r@ =~= input@.subrange(start as int, start + i),
            decreases nbytes - i,
        {
            r.push(input[start + i]);
            i = i + 1;
        }
        self.pos = self.pos + nbytes;
        assert(r@ =~= old(self).unread().subrange(0, nbytes as int));
        assert(self.unread() =~= old(self).unread().subrange(
            nbytes as int,
            old(self).unread().len() as int,
        ));
        Ok(r)
    }

    /// Writes a boolean as one byte, 1 or 0.
    pub fn write_bool(&mut self, b: bool) -> (n: usize)
        requires
            old(self).wf(),
        ensures
            final(self).wf(),
            n == 1,
            final(self).written() == old(self).written().push(if b { 1u8 } else { 0u8 }),
            final(self).unread() == old(self).unread(),
    {
        self.output.push(if b {
            1u8
        } else {
            0u8
        });
        1
    }

    /// Reads one byte as a boolean: true unless it is 0.
    pub fn read_bool(&mut self) -> (r: Result<bool, OtError>)
        requires
            old(self).wf(),
        ensures
            final(self).wf(),
            final(self).written() == old(self).written(),
            old(self).unread().len() >= 1 ==> r is Ok && r->Ok_0 == (old(self).unread()[0] != 0)
                && final(self).unread() == old(self).unread().drop_first(),
            old(self).unread().len() == 0 ==> r is Err && r->Err_0 == OtError::Io
                && final(self).unread() == old(self).unread(),
    {
        let data = self.read_bytes(1)?;
        Ok(data[0] != 0)
    }

    /// Writes a 128-bit word as 16 bytes, least significant first.
    pub fn write_u128(&mut self, data: &u128) -> (n: usize)
        requires
            old(self).wf(),
        ensures
            final(self).wf(),
            n == 16,
            final(self).written() == old(self).written() + le_bytes(*data),
            final(self).unread() == old(self).unread(),
    {
        let x = *data;
        let mut bytes: Vec<u8> = Vec::with_capacity(16);
        let mut i: u128 = 0;
        while i < 16
            invariant
                i <= 16,
                bytes@ =~= le_bytes(x).subrange(0, i as int),
            decreases 16 - i,
        {
            bytes.push(((x >> (8 * i)) & 0xffu128) as u8);
            i = i + 1;
        }
        self.write_bytes(&bytes)
    }

    /// Reads a 128-bit word from 16 bytes, least significant first; fails
    /// with `Io`, reading nothing, when fewer arrived.
    pub fn read_u128(&mut self) -> (r: Result<u128, OtError>)
        requires
            old(self).wf(),
        ensures
            final(self).wf(),
            final(self).written() == old(self).written(),
            old(self).unread().len() >= 16 ==> r is Ok && le_bytes(r->Ok_0) == old(
                self,
            ).unread().subrange(0, 16) && final(self).unread() == old(self).unread().subrange(
                16,
                old(self).unread().len() as int,
            ),
            old(self).unread().len() < 16 ==> r is Err && r->Err_0 == OtError::Io
                && final(self).unread() == old(self).unread(),
    {
        let data = self.read_bytes(16)?;
        let mut acc: u128 = 0;
        let mut i: usize = 0;
        assert(0u128 >> 0u128 == 0) by (bit_vector);
        while i < 16
            invariant
                i <= 16,
                data@.len() == 16,
                i < 16 ==> acc >> ((8 * i) as u128) == 0,
                forall|k: int| 0 <= k < i ==> #[trigger] le_byte(acc, k) == data@[k],
            decreases 16 - i,
        {
            let s: u128 = 8 * i as u128;
            let b: u128 = data[i] as u128;
            proof {
                assert forall|k: int| 0 <= k < i implies #[trigger] le_byte(acc | (b << s), k)
                    == le_byte(acc, k) by {
                    lemma_or_byte_keeps(acc, b, s, (8 * k) as u128);
                }
                lemma_or_byte_adds(acc, b, s);
            }
            acc = acc | (b << s);
            assert(le_byte(acc, i as int) == data@[i as int]);
            i = i + 1;
        }
        assert(le_bytes(acc) =~= data@);
        Ok(acc)
    }

    /// Writes the 32-byte encoding of a point.
    pub fn write_pt(&mut self, enc: &Vec<u8>) -> (n: usize)
        requires
            old(self).wf(),
            enc@.len() == POINT_SIZE,
        ensures
            final(self).wf(),
            n == POINT_SIZE,
            final(self).written() == old(self).written() + enc@,
            final(self).unread() == old(self).unread(),
    {
        self.write_bytes(enc)
    }

    /// Reads the 32-byte encoding of a point; fails with `InvalidEncoding`
    /// when it is not canonical.
    pub fn read_pt(&mut self) -> (r: Result<Vec<u8>, OtError>)
        requires
            old(self).wf(),
        ensures
            final(self).wf(),
            final(self).written() == old(self).written(),
            old(self).unread().len() < POINT_SIZE ==> r is Err && r->Err_0 == OtError::Io
                && final(self).unread() == old(self).unread(),
            old(self).unread().len() >= POINT_SIZE ==> final(self).unread() == old(
                self,
            ).unread().subrange(POINT_SIZE as int, old(self).unread().len() as int) && (
            if ristretto_decodes(old(self).unread().subrange(0, POINT_SIZE as int)) {
                r is Ok && r->Ok_0@ == old(self).unread().subrange(0, POINT_SIZE as int)
            } else {
                r is Err && r->Err_0 == OtError::InvalidEncoding
            }),
    {
        let data = self.read_bytes(POINT_SIZE)?;
        if point_decodes(&data) {
            Ok(data)
        } else {
            Err(OtError::InvalidEncoding)
        }
    }

    /// Writes bits packed into bytes, little-endian within each byte.
    pub fn write_bitvec(&mut self, bits: &Vec<bool>) -> (n: usize)
        requires
            old(self).wf(),
            bits@.len() + 7 <= usize::MAX,
        ensures
            final(self).wf(),
            n == pack_spec(bits@).len(),
            final(self).written() == old(self).written() + pack_spec(bits@),
            final(self).unread() == old(self).unread(),
    {
        let bytes = pack_bits(bits);
        self.write_bytes(&bytes)
    }

    /// Reads `nbits` bits packed into the next `(nbits + 7) / 8` bytes.
    pub fn read_bitvec(&mut self, nbits: usize) -> (r: Result<Vec<bool>, OtError>)
        requires
            old(self).wf(),
            nbits + 7 <= usize::MAX,
        ensures
            final(self).wf(),
            final(self).written() == old(self).written(),
            ({
                let nb = (nbits + 7) / 8;
                let u = old(self).unread();
                &&& nb <= u.len() ==> r is Ok && r->Ok_0@ == unpack_spec(
                    u.subrange(0, nb as int),
                    nbits as nat,
                ) && final(self).unread() == u.subrange(nb as int, u.len() as int)
                &&& nb > u.len() ==> r is Err && r->Err_0 == OtError::Io && final(self).unread()
                    == u
            }),
    {
        let bytes = self.read_bytes((nbits + 7) / 8)?;
        Ok(unpack_bits(&bytes, nbits))
    }
}

} // verus!
