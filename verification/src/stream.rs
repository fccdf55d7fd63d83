//! Byte-stream primitives: big-endian integer packing, an in-memory byte
//! source (`ByteReader`) and an in-memory byte sink (`ByteWriter`).
//!
//! All multi-byte integers in the container are big-endian. The spec
//! functions here define the byte-level meaning of each field width, and
//! the reader/writer methods are verified against them.

use vstd::prelude::*;

verus! {

// ---------------------------------------------------------------------------
// Big-endian packing, specification level
// ---------------------------------------------------------------------------
/// Big-endian value of two bytes.
pub open spec fn be_u16(b: Seq<u8>) -> u16
    recommends
        b.len() == 2,
{
    ((b[0] as u16) << 8) | (b[1] as u16)
}

/// Big-endian value of three bytes, held in a `u32` (always below `0x100_0000`).
pub open spec fn be_u24(b: Seq<u8>) -> u32
    recommends
        b.len() == 3,
{
    ((b[0] as u32) << 16) | ((b[1] as u32) << 8) | (b[2] as u32)
}

/// Big-endian value of four bytes.
pub open spec fn be_u32(b: Seq<u8>) -> u32
    recommends
        b.len() == 4,
{
    ((b[0] as u32) << 24) | ((b[1] as u32) << 16) | ((b[2] as u32) << 8) | (b[3] as u32)
}

/// Big-endian value of eight bytes.
pub open spec fn be_u64(b: Seq<u8>) -> u64
    recommends
        b.len() == 8,
{
    ((b[0] as u64) << 56) | ((b[1] as u64) << 48) | ((b[2] as u64) << 40) | ((b[3] as u64) << 32)
        | ((b[4] as u64) << 24) | ((b[5] as u64) << 16) | ((b[6] as u64) << 8) | (b[7] as u64)
}

/// Signed 24-bit big-endian value of three bytes (two's complement).
pub open spec fn be_i24(b: Seq<u8>) -> i32
    recommends
        b.len() == 3,
{
    let v = be_u24(b);
    if v >= 0x80_0000 {
        (v as int - 0x100_0000) as i32
    } else {
        v as i32
    }
}

/// The two big-endian bytes of a 16-bit value.
pub open spec fn u16_to_be(x: u16) -> Seq<u8> {
    seq![((x >> 8) & 0xff) as u8, (x & 0xff) as u8]
}

/// The three big-endian bytes of a 24-bit value.
pub open spec fn u24_to_be(x: u32) -> Seq<u8>
    recommends
        x < 0x100_0000,
{
    seq![((x >> 16) & 0xff) as u8, ((x >> 8) & 0xff) as u8, (x & 0xff) as u8]
}

/// The four big-endian bytes of a 32-bit value.
pub open spec fn u32_to_be(x: u32) -> Seq<u8> {
    seq![((x >> 24) & 0xff) as u8, ((x >> 16) & 0xff) as u8, ((x >> 8) & 0xff) as u8, (
    x & 0xff) as u8]
}

/// The eight big-endian bytes of a 64-bit value.
pub open spec fn u64_to_be(x: u64) -> Seq<u8> {
    seq![
        ((x >> 56) & 0xff) as u8,
        ((x >> 48) & 0xff) as u8,
        ((x >> 40) & 0xff) as u8,
        ((x >> 32) & 0xff) as u8,
        ((x >> 24) & 0xff) as u8,
        ((x >> 16) & 0xff) as u8,
        ((x >> 8) & 0xff) as u8,
        (x & 0xff) as u8,
    ]
}

/// The three big-endian bytes of a signed 24-bit value (two's complement).
pub open spec fn i24_to_be(x: i32) -> Seq<u8>
    recommends
        -0x80_0000 <= x < 0x80_0000,
{
    u24_to_be(
        if x < 0 {
            (x + 0x100_0000) as u32
        } else {
            x as u32
        },
    )
}

pub proof fn lemma_u16_be_round(x: u16)
    ensures
        u16_to_be(x).len() == 2,
        be_u16(u16_to_be(x)) == x,
{
    let b0 = ((x >> 8) & 0xff) as u8;
    let b1 = (x & 0xff) as u8;
    assert(((b0 as u16) << 8) | (b1 as u16) == x) by (bit_vector)
        requires
            b0 == ((x >> 8) & 0xff) as u8,
            b1 == (x & 0xff) as u8,
    ;
}

pub proof fn lemma_u24_be_round(x: u32)
    requires
        x < 0x100_0000,
    ensures
        u24_to_be(x).len() == 3,
        be_u24(u24_to_be(x)) == x,
        be_u24(u24_to_be(x)) < 0x100_0000,
{
    let b0 = ((x >> 16) & 0xff) as u8;
    let b1 = ((x >> 8) & 0xff) as u8;
    let b2 = (x & 0xff) as u8;
    assert(((b0 as u32) << 16) | ((b1 as u32) << 8) | (b2 as u32) == x) by (bit_vector)
        requires
            x < 0x100_0000,
            b0 == ((x >> 16) & 0xff) as u8,
            b1 == ((x >> 8) & 0xff) as u8,
            b2 == (x & 0xff) as u8,
    ;
}

pub proof fn lemma_u24_be_bytes_round(b: Seq<u8>)
    requires
        b.len() == 3,
    ensures
        u24_to_be(be_u24(b)) == b,
{
    let b0 = b[0];
    let b1 = b[1];
    let b2 = b[2];
    let x = ((b0 as u32) << 16) | ((b1 as u32) << 8) | (b2 as u32);
    assert(((x >> 16) & 0xff) as u8 == b0 && ((x >> 8) & 0xff) as u8 == b1 && (x & 0xff) as u8
        == b2) by (bit_vector)
        requires
            x == ((b0 as u32) << 16) | ((b1 as u32) << 8) | (b2 as u32),
    ;
    assert(u24_to_be(be_u24(b)) =~= b);
}

pub proof fn lemma_u32_be_round(x: u32)
    ensures
        u32_to_be(x).len() == 4,
        be_u32(u32_to_be(x)) == x,
{
    let b0 = ((x >> 24) & 0xff) as u8;
    let b1 = ((x >> 16) & 0xff) as u8;
    let b2 = ((x >> 8) & 0xff) as u8;
    let b3 = (x & 0xff) as u8;
    assert(((b0 as u32) << 24) | ((b1 as u32) << 16) | ((b2 as u32) << 8) | (b3 as u32) == x)
        by (bit_vector)
        requires
            b0 == ((x >> 24) & 0xff) as u8,
            b1 == ((x >> 16) & 0xff) as u8,
            b2 == ((x >> 8) & 0xff) as u8,
            b3 == (x & 0xff) as u8,
    ;
}

pub proof fn lemma_u64_be_round(x: u64)
    ensures
        u64_to_be(x).len() == 8,
        be_u64(u64_to_be(x)) == x,
{
    let b0 = ((x >> 56) & 0xff) as u8;
    let b1 = ((x >> 48) & 0xff) as u8;
    let b2 = ((x >> 40) & 0xff) as u8;
    let b3 = ((x >> 32) & 0xff) as u8;
    let b4 = ((x >> 24) & 0xff) as u8;
    let b5 = ((x >> 16) & 0xff) as u8;
    let b6 = ((x >> 8) & 0xff) as u8;
    let b7 = (x & 0xff) as u8;
    assert(((b0 as u64) << 56) | ((b1 as u64) << 48) | ((b2 as u64) << 40) | ((b3 as u64) << 32) | (
    (b4 as u64) << 24) | ((b5 as u64) << 16) | ((b6 as u64) << 8) | (b7 as u64) == x)
        by (bit_vector)
        requires
            b0 == ((x >> 56) & 0xff) as u8,
            b1 == ((x >> 48) & 0xff) as u8,
            b2 == ((x >> 40) & 0xff) as u8,
            b3 == ((x >> 32) & 0xff) as u8,
            b4 == ((x >> 24) & 0xff) as u8,
            b5 == ((x >> 16) & 0xff) as u8,
            b6 == ((x >> 8) & 0xff) as u8,
            b7 == (x & 0xff) as u8,
    ;
}

pub proof fn lemma_i24_be_round(x: i32)
    requires
        -0x80_0000 <= x < 0x80_0000,
    ensures
        i24_to_be(x).len() == 3,
        be_i24(i24_to_be(x)) == x,
{
    if x < 0 {
        let v = (x + 0x100_0000) as u32;
        lemma_u24_be_round(v);
        assert(v >= 0x80_0000);
    } else {
        let v = x as u32;
        lemma_u24_be_round(v);
        assert(v < 0x80_0000);
    }
}

// ---------------------------------------------------------------------------
// ByteReader
// ---------------------------------------------------------------------------
/// An in-memory byte source: a buffer and a cursor that only moves forward.
/// Every decoder in this crate pulls its input from one of these.
pub struct ByteReader {
    pub data: Vec<u8>,
    pub pos: usize,
}

impl ByteReader {
    /// The cursor never points past the end of the buffer.
    pub open spec fn wf(&self) -> bool {
        self.pos <= self.data@.len()
    }

    /// The bytes not yet consumed.
    pub open spec fn remaining(&self) -> Seq<u8> {
        self.data@.skip(self.pos as int)
    }

    pub fn new(data: Vec<u8>) -> (r: ByteReader)
        ensures
            r.wf(),
            r.data@ == data@,
            r.pos == 0,
            r.remaining() == data@,
    {
        let r = ByteReader { data, pos: 0 };
        proof {
            assert(r.remaining() =~= r.data@);
        }
        r
    }

    /// How many bytes are left to read.
    pub fn remaining_len(&self) -> (n: usize)
        requires
            self.wf(),
        ensures
            n == self.remaining().len(),
    {
        self.data.len() - self.pos
    }

    pub fn read_u8(&mut self) -> (res: Option<u8>)
        requires
            old(self).wf(),
        ensures
            final(self).wf(),
            final(self).data@ == old(self).data@,
            match res {
                Some(x) => old(self).remaining().len() >= 1 && x == old(self).remaining()[0]
                    && final(self).pos == old(self).pos + 1,
                None => old(self).remaining().len() < 1 && *final(self) == *old(self),
            },
    {
        if self.data.len() - self.pos >= 1 {
            let b = self.data[self.pos];
            self.pos = self.pos + 1;
            Some(b)
        } else {
            None
        }
    }

    pub fn read_u16_be(&mut self) -> (res: Option<u16>)
        requires
            old(self).wf(),
        ensures
            final(self).wf(),
            final(self).data@ == old(self).data@,
            match res {
                Some(x) => old(self).remaining().len() >= 2 && x == be_u16(
                    old(self).remaining().take(2),
                ) && final(self).pos == old(self).pos + 2,
                None => old(self).remaining().len() < 2 && *final(self) == *old(self),
            },
    {
        if self.data.len() - self.pos >= 2 {
            let b0 = self.data[self.pos];
            let b1 = self.data[self.pos + 1];
            self.pos = self.pos + 2;
            Some(((b0 as u16) << 8) | (b1 as u16))
        } else {
            None
        }
    }

    pub fn read_u24_be(&mut self) -> (res: Option<u32>)
        requires
            old(self).wf(),
        ensures
            final(self).wf(),
            final(self).data@ == old(self).data@,
            match res {
                Some(x) => old(self).remaining().len() >= 3 && x == be_u24(
                    old(self).remaining().take(3),
                ) && x < 0x100_0000 && final(self).pos == old(self).pos + 3,
                None => old(self).remaining().len() < 3 && *final(self) == *old(self),
            },
    {
        if self.data.len() - self.pos >= 3 {
            let b0 = self.data[self.pos];
            let b1 = self.data[self.pos + 1];
            let b2 = self.data[self.pos + 2];
            self.pos = self.pos + 3;
            let x = ((b0 as u32) << 16) | ((b1 as u32) << 8) | (b2 as u32);
            proof {
                assert(((b0 as u32) << 16) | ((b1 as u32) << 8) | (b2 as u32) < 0x100_0000)
                    by (bit_vector);
            }
            Some(x)
        } else {
            None
        }
    }

    pub fn read_u32_be(&mut self) -> (res: Option<u32>)
        requires
            old(self).wf(),
        ensures
            final(self).wf(),
            final(self).data@ == old(self).data@,
            match res {
                Some(x) => old(self).remaining().len() >= 4 && x == be_u32(
                    old(self).remaining().take(4),
                ) && final(self).pos == old(self).pos + 4,
                None => old(self).remaining().len() < 4 && *final(self) == *old(self),
            },
    {
        if self.data.len() - self.pos >= 4 {
            let b0 = self.data[self.pos];
            let b1 = self.data[self.pos + 1];
            let b2 = self.data[self.pos + 2];
            let b3 = self.data[self.pos + 3];
            self.pos = self.pos + 4;
            Some(((b0 as u32) << 24) | ((b1 as u32) << 16) | ((b2 as u32) << 8) | (b3 as u32))
        } else {
            None
        }
    }

    pub fn read_u64_be(&mut self) -> (res: Option<u64>)
        requires
            old(self).wf(),
        ensures
            final(self).wf(),
            final(self).data@ == old(self).data@,
            match res {
                Some(x) => old(self).remaining().len() >= 8 && x == be_u64(
                    old(self).remaining().take(8),
                ) && final(self).pos == old(self).pos + 8,
                None => old(self).remaining().len() < 8 && *final(self) == *old(self),
            },
    {
        if self.data.len() - self.pos >= 8 {
            let b0 = self.data[self.pos];
            let b1 = self.data[self.pos + 1];
            let b2 = self.data[self.pos + 2];
            let b3 = self.data[self.pos + 3];
            let b4 = self.data[self.pos + 4];
            let b5 = self.data[self.pos + 5];
            let b6 = self.data[self.pos + 6];
            let b7 = self.data[self.pos + 7];
            self.pos = self.pos + 8;
            Some(
                ((b0 as u64) << 56) | ((b1 as u64) << 48) | ((b2 as u64) << 40) | ((b3 as u64)
                    << 32) | ((b4 as u64) << 24) | ((b5 as u64) << 16) | ((b6 as u64) << 8) | (
                b7 as u64),
            )
        } else {
            None
        }
    }

    pub fn read_i24_be(&mut self) -> (res: Option<i32>)
        requires
            old(self).wf(),
        ensures
            final(self).wf(),
            final(self).data@ == old(self).data@,
            match res {
                Some(x) => old(self).remaining().len() >= 3 && x == be_i24(
                    old(self).remaining().take(3),
                ) && -0x80_0000 <= x < 0x80_0000 && final(self).pos == old(self).pos + 3,
                None => old(self).remaining().len() < 3 && *final(self) == *old(self),
            },
    {
        match self.read_u24_be() {
            Some(v) => {
                if v >= 0x80_0000 {
                    Some((v as i32) - 0x100_0000)
                } else {
                    Some(v as i32)
                }
            },
            None => None,
        }
    }

    pub fn read_bytes(&mut self, n: usize) -> (res: Option<Vec<u8>>)
        requires
            old(self).wf(),
        ensures
            final(self).wf(),
            final(self).data@ == old(self).data@,
            match res {
                Some(v) => old(self).remaining().len() >= n && v@ == old(self).remaining().take(
                    n as int,
                ) && final(self).pos == old(self).pos + n,
                None => old(self).remaining().len() < n && *final(self) == *old(self),
            },
    {
        if self.data.len() - self.pos >= n {
            let s = vstd::slice::slice_subrange(self.data.as_slice(), self.pos, self.pos + n);
            let v = vstd::slice::slice_to_vec(s);
            self.pos = self.pos + n;
            proof {
                assert(v@ =~= old(self).remaining().take(n as int));
            }
            Some(v)
        } else {
            None
        }
    }
}

// ---------------------------------------------------------------------------
// ByteWriter
// ---------------------------------------------------------------------------
/// An in-memory byte sink: encoders append to its buffer and never fail.
pub struct ByteWriter {
    pub data: Vec<u8>,
}

impl ByteWriter {
    pub fn new() -> (w: ByteWriter)
        ensures
            w.data@ == Seq::<u8>::empty(),
    {
        ByteWriter { data: Vec::new() }
    }

    /// Consumes the writer and hands back everything written so far.
    pub fn into_vec(self) -> (v: Vec<u8>)
        ensures
            v@ == self.data@,
    {
        self.data
    }

    pub fn write_u8(&mut self, x: u8)
        ensures
            final(self).data@ == old(self).data@ + seq![x],
    {
        self.data.push(x);
        proof {
            assert(self.data@ =~= old(self).data@ + seq![x]);
        }
    }

    pub fn write_u16_be(&mut self, x: u16)
        ensures
            final(self).data@ == old(self).data@ + u16_to_be(x),
    {
        self.data.push(((x >> 8) & 0xff) as u8);
        self.data.push((x & 0xff) as u8);
        proof {
            assert(self.data@ =~= old(self).data@ + u16_to_be(x));
        }
    }

    pub fn write_u24_be(&mut self, x: u32)
        requires
            x < 0x100_0000,
        ensures
            final(self).data@ == old(self).data@ + u24_to_be(x),
    {
        self.data.push(((x >> 16) & 0xff) as u8);
        self.data.push(((x >> 8) & 0xff) as u8);
        self.data.push((x & 0xff) as u8);
        proof {
            assert(self.data@ =~= old(self).data@ + u24_to_be(x));
        }
    }

    pub fn write_u32_be(&mut self, x: u32)
        ensures
            final(self).data@ == old(self).data@ + u32_to_be(x),
    {
        self.data.push(((x >> 24) & 0xff) as u8);
        self.data.push(((x >> 16) & 0xff) as u8);
        self.data.push(((x >> 8) & 0xff) as u8);
        self.data.push((x & 0xff) as u8);
        proof {
            assert(self.data@ =~= old(self).data@ + u32_to_be(x));
        }
    }

    pub fn write_u64_be(&mut self, x: u64)
        ensures
            final(self).data@ == old(self).data@ + u64_to_be(x),
    {
        self.data.push(((x >> 56) & 0xff) as u8);
        self.data.push(((x >> 48) & 0xff) as u8);
        self.data.push(((x >> 40) & 0xff) as u8);
        self.data.push(((x >> 32) & 0xff) as u8);
        self.data.push(((x >> 24) & 0xff) as u8);
        self.data.push(((x >> 16) & 0xff) as u8);
        self.data.push(((x >> 8) & 0xff) as u8);
        self.data.push((x & 0xff) as u8);
        proof {
            assert(self.data@ =~= old(self).data@ + u64_to_be(x));
        }
    }

    pub fn write_i24_be(&mut self, x: i32)
        requires
            -0x80_0000 <= x < 0x80_0000,
        ensures
            final(self).data@ == old(self).data@ + i24_to_be(x),
    {
        if x < 0 {
            self.write_u24_be((x + 0x100_0000) as u32);
        } else {
            self.write_u24_be(x as u32);
        }
    }

    pub fn write_bytes(&mut self, b: &[u8])
        ensures
            final(self).data@ == old(self).data@ + b@,
    {
        self.data.extend_from_slice(b);
    }
}

} // verus!
