//! A sequential cursor over a byte buffer, with exact-read semantics: every
//! fixed-width read either returns exactly the requested bytes or fails with
//! `ShortRead` and leaves the cursor where it was.
use vstd::prelude::*;

use crate::types::RdbError;
use crate::types::RdbResult;

verus! {

/// The value of two bytes read little-endian.
pub open spec fn le16(s: Seq<u8>) -> u16
    recommends
        s.len() == 2,
{
    (s[0] + s[1] * 0x100) as u16
}

/// The value of three bytes read little-endian.
pub open spec fn le24(s: Seq<u8>) -> u32
    recommends
        s.len() == 3,
{
    (s[0] + s[1] * 0x100 + s[2] * 0x10000) as u32
}

/// The value of four bytes read little-endian.
pub open spec fn le32(s: Seq<u8>) -> u32
    recommends
        s.len() == 4,
{
    (s[0] + s[1] * 0x100 + s[2] * 0x10000 + s[3] * 0x1000000) as u32
}

/// The value of eight bytes read little-endian.
pub open spec fn le64(s: Seq<u8>) -> u64
    recommends
        s.len() == 8,
{
    (s[0] + s[1] * 0x100 + s[2] * 0x10000 + s[3] * 0x1000000 + s[4] * 0x100000000
        + s[5] * 0x10000000000 + s[6] * 0x1000000000000 + s[7] * 0x100000000000000) as u64
}

/// The value of four bytes read big-endian.
pub open spec fn be32(s: Seq<u8>) -> u32
    recommends
        s.len() == 4,
{
    (s[0] * 0x1000000 + s[1] * 0x10000 + s[2] * 0x100 + s[3]) as u32
}

/// The value of eight bytes read big-endian.
pub open spec fn be64(s: Seq<u8>) -> u64
    recommends
        s.len() == 8,
{
    (s[0] * 0x100000000000000 + s[1] * 0x1000000000000 + s[2] * 0x10000000000
        + s[3] * 0x100000000 + s[4] * 0x1000000 + s[5] * 0x10000 + s[6] * 0x100 + s[7]) as u64
}

/// A byte reinterpreted as a signed value.
pub open spec fn sign8(b: u8) -> int {
    if b >= 0x80 {
        b - 0x100
    } else {
        b as int
    }
}

/// A 16-bit value reinterpreted as a signed value.
pub open spec fn sign16(v: u16) -> int {
    if v >= 0x8000 {
        v - 0x10000
    } else {
        v as int
    }
}

/// A 24-bit value reinterpreted as a signed value.
pub open spec fn sign24(v: u32) -> int
    recommends
        v < 0x1000000,
{
    if v >= 0x800000 {
        v - 0x1000000
    } else {
        v as int
    }
}

/// A 32-bit value reinterpreted as a signed value.
pub open spec fn sign32(v: u32) -> int {
    if v >= 0x80000000 {
        v - 0x100000000
    } else {
        v as int
    }
}

/// A 64-bit value reinterpreted as a signed value.
pub open spec fn sign64(v: u64) -> int {
    if v >= 0x8000000000000000 {
        v - 0x10000000000000000
    } else {
        v as int
    }
}

/// Sequential reader over an in-memory byte buffer.
pub struct Reader {
    data: Vec<u8>,
    pos: usize,
}

impl Reader {
    /// The cursor never runs past the end of the buffer.
    #[verifier::type_invariant]
    pub closed spec fn wf(self) -> bool {
        self.pos <= self.data@.len()
    }

    /// The bytes not yet consumed.
    pub closed spec fn rem(self) -> Seq<u8> {
        self.data@.skip(self.pos as int)
    }

    /// A reader positioned at the first byte of `data`.
    pub fn new(data: Vec<u8>) -> (r: Reader)
        ensures
            r.rem() == data@,
    {
        let r = Reader { data, pos: 0 };
        proof {
            assert(r.rem() =~= r.data@);
        }
        r
    }

    /// How many bytes are left.
    pub fn remaining_len(&self) -> (n: usize)
        ensures
            n == self.rem().len(),
    {
        proof {
            use_type_invariant(&*self);
        }
        self.data.len() - self.pos
    }

    /// Read one byte.
    pub fn read_u8(&mut self) -> (r: RdbResult<u8>)
        ensures
            ({
                let s = old(self).rem();
                if s.len() >= 1 {
                    r == Ok::<u8, RdbError>(s[0]) && final(self).rem() == s.skip(1)
                } else {
                    r == Err::<u8, RdbError>(RdbError::ShortRead(1, 0)) && final(self).rem() == s
                }
            }),
    {
        proof {
            use_type_invariant(&*self);
        }
        if self.pos < self.data.len() {
            let b = self.data[self.pos];
            self.pos = self.pos + 1;
            proof {
                assert(final(self).rem() =~= old(self).rem().skip(1));
            }
            Ok(b)
        } else {
            Err(RdbError::ShortRead(1, 0))
        }
    }

    /// Read exactly `n` bytes.
    pub fn read_exact(&mut self, n: usize) -> (r: RdbResult<Vec<u8>>)
        ensures
            ({
                let s = old(self).rem();
                if s.len() >= n {
                    &&& r matches Ok(v) && v@ == s.take(n as int)
                    &&& final(self).rem() == s.skip(n as int)
                } else {
                    &&& r == Err::<Vec<u8>, RdbError>(RdbError::ShortRead(n, s.len() as usize))
                    &&& final(self).rem() == s
                }
            }),
    {
        proof {
            use_type_invariant(&*self);
        }
        let avail = self.data.len() - self.pos;
        if n > avail {
            return Err(RdbError::ShortRead(n, avail));
        }
        let mut v: Vec<u8> = Vec::new();
        let mut i: usize = 0;
        while i < n
            invariant
                i <= n,
                self.wf(),
                self.pos + n <= self.data@.len(),
                self.data@.len() <= usize::MAX,
                self.data == old(self).data,
                self.pos == old(self).pos,
                v@ == self.data@.subrange(self.pos as int, self.pos + i),
            decreases n - i,
        {
            let b = self.data[self.pos + i];
            v.push(b);
            i = i + 1;
            proof {
                assert(v@ =~= self.data@.subrange(self.pos as int, self.pos + i));
            }
        }
        self.pos = self.pos + n;
        proof {
            assert(v@ =~= old(self).rem().take(n as int));
            assert(final(self).rem() =~= old(self).rem().skip(n as int));
        }
        Ok(v)
    }

    /// Advance the cursor over `n` bytes without keeping them.
    pub fn skip_bytes(&mut self, n: usize) -> (r: RdbResult<()>)
        ensures
            ({
                let s = old(self).rem();
                if s.len() >= n {
                    r == Ok::<(), RdbError>(()) && final(self).rem() == s.skip(n as int)
                } else {
                    &&& r == Err::<(), RdbError>(RdbError::ShortRead(n, s.len() as usize))
                    &&& final(self).rem() == s
                }
            }),
    {
        proof {
            use_type_invariant(&*self);
        }
        let avail = self.data.len() - self.pos;
        if n > avail {
            return Err(RdbError::ShortRead(n, avail));
        }
        self.pos = self.pos + n;
        proof {
            assert(final(self).rem() =~= old(self).rem().skip(n as int));
        }
        Ok(())
    }

    /// Read all remaining bytes.
    pub fn read_to_end(&mut self) -> (r: Vec<u8>)
        ensures
            r@ == old(self).rem(),
            final(self).rem() == Seq::<u8>::empty(),
    {
        proof {
            use_type_invariant(&*self);
        }
        let avail = self.data.len() - self.pos;
        let r = match self.read_exact(avail) {
            Ok(v) => v,
            Err(_) => unreached(),
        };
        proof {
            assert(r@ =~= old(self).rem());
            assert(final(self).rem() =~= Seq::<u8>::empty());
        }
        r
    }

    /// Read two bytes as a little-endian integer.
    pub fn read_u16_le(&mut self) -> (r: RdbResult<u16>)
        ensures
            ({
                let s = old(self).rem();
                if s.len() >= 2 {
                    r == Ok::<u16, RdbError>(le16(s.take(2))) && final(self).rem() == s.skip(2)
                } else {
                    &&& r == Err::<u16, RdbError>(RdbError::ShortRead(2, s.len() as usize))
                    &&& final(self).rem() == s
                }
            }),
    {
        let v = self.read_exact(2)?;
        Ok(v[0] as u16 + v[1] as u16 * 0x100)
    }

    /// Read four bytes as a little-endian integer.
    pub fn read_u32_le(&mut self) -> (r: RdbResult<u32>)
        ensures
            ({
                let s = old(self).rem();
                if s.len() >= 4 {
                    r == Ok::<u32, RdbError>(le32(s.take(4))) && final(self).rem() == s.skip(4)
                } else {
                    &&& r == Err::<u32, RdbError>(RdbError::ShortRead(4, s.len() as usize))
                    &&& final(self).rem() == s
                }
            }),
    {
        let v = self.read_exact(4)?;
        Ok(v[0] as u32 + v[1] as u32 * 0x100 + v[2] as u32 * 0x10000 + v[3] as u32 * 0x1000000)
    }

    /// Read eight bytes as a little-endian integer.
    pub fn read_u64_le(&mut self) -> (r: RdbResult<u64>)
        ensures
            ({
                let s = old(self).rem();
                if s.len() >= 8 {
                    r == Ok::<u64, RdbError>(le64(s.take(8))) && final(self).rem() == s.skip(8)
                } else {
                    &&& r == Err::<u64, RdbError>(RdbError::ShortRead(8, s.len() as usize))
                    &&& final(self).rem() == s
                }
            }),
    {
        let v = self.read_exact(8)?;
        Ok(
            v[0] as u64 + v[1] as u64 * 0x100 + v[2] as u64 * 0x10000 + v[3] as u64 * 0x1000000
                + v[4] as u64 * 0x100000000 + v[5] as u64 * 0x10000000000 + v[6] as u64
                * 0x1000000000000 + v[7] as u64 * 0x100000000000000,
        )
    }

    /// Read four bytes as a big-endian integer.
    pub fn read_u32_be(&mut self) -> (r: RdbResult<u32>)
        ensures
            ({
                let s = old(self).rem();
                if s.len() >= 4 {
                    r == Ok::<u32, RdbError>(be32(s.take(4))) && final(self).rem() == s.skip(4)
                } else {
                    &&& r == Err::<u32, RdbError>(RdbError::ShortRead(4, s.len() as usize))
                    &&& final(self).rem() == s
                }
            }),
    {
        let v = self.read_exact(4)?;
        Ok(v[0] as u32 * 0x1000000 + v[1] as u32 * 0x10000 + v[2] as u32 * 0x100 + v[3] as u32)
    }

    /// Read eight bytes as a big-endian integer.
    pub fn read_u64_be(&mut self) -> (r: RdbResult<u64>)
        ensures
            ({
                let s = old(self).rem();
                if s.len() >= 8 {
                    r == Ok::<u64, RdbError>(be64(s.take(8))) && final(self).rem() == s.skip(8)
                } else {
                    &&& r == Err::<u64, RdbError>(RdbError::ShortRead(8, s.len() as usize))
                    &&& final(self).rem() == s
                }
            }),
    {
        let v = self.read_exact(8)?;
        Ok(
            v[0] as u64 * 0x100000000000000 + v[1] as u64 * 0x1000000000000 + v[2] as u64
                * 0x10000000000 + v[3] as u64 * 0x100000000 + v[4] as u64 * 0x1000000 + v[5] as u64
                * 0x10000 + v[6] as u64 * 0x100 + v[7] as u64,
        )
    }
}

} // verus!
