//! A bounds-checked, position-tracking big-endian reader over a byte range.
//!
//! A `Cursor` is a pair of indices into the file buffer: the next position
//! to read and the end of the readable range.  Every read checks the
//! remaining length first and fails with `NotEnoughData`, without moving,
//! when the range is too short.  Each operation has a spec-level twin
//! (`spec_u32`, `spec_blob`, ...) that says exactly which value it yields
//! and where the cursor stands afterwards; all higher layers of the decoder
//! are specified by composing those twins.

use crate::bytes::{
    be_u16_at, be_u32_at, be_u64_at, read_be_u16, read_be_u32, read_be_u64, signed16, signed32,
    signed64, to_i16, to_i32, to_i64,
};
use crate::{BadDataReason, Error};
use vstd::prelude::*;

verus! {

/// A read position `pos` inside the half-open byte range `[.., end)` of
/// the file buffer.  The buffer itself is passed to each operation.
pub struct Cursor {
    /// Index of the next byte to read.
    pub pos: usize,
    /// Index one past the last readable byte.
    pub end: usize,
}

impl Cursor {
    /// The cursor addresses a buffer of length `len`.
    pub open spec fn wf(self, len: int) -> bool {
        self.pos <= self.end <= len
    }
}

/// Read one byte.
pub open spec fn spec_u8(d: Seq<u8>, end: int, pos: int) -> Result<(u8, int), Error> {
    if pos + 1 <= end {
        Ok((d[pos], pos + 1))
    } else {
        Err(Error::NotEnoughData)
    }
}

/// Read a big-endian 16-bit value.
pub open spec fn spec_u16(d: Seq<u8>, end: int, pos: int) -> Result<(u16, int), Error> {
    if pos + 2 <= end {
        Ok((be_u16_at(d, pos), pos + 2))
    } else {
        Err(Error::NotEnoughData)
    }
}

/// Read a big-endian 32-bit value.
pub open spec fn spec_u32(d: Seq<u8>, end: int, pos: int) -> Result<(u32, int), Error> {
    if pos + 4 <= end {
        Ok((be_u32_at(d, pos), pos + 4))
    } else {
        Err(Error::NotEnoughData)
    }
}

/// Read a big-endian 64-bit value.
pub open spec fn spec_u64(d: Seq<u8>, end: int, pos: int) -> Result<(u64, int), Error> {
    if pos + 8 <= end {
        Ok((be_u64_at(d, pos), pos + 8))
    } else {
        Err(Error::NotEnoughData)
    }
}

/// Read a big-endian 16-bit value as a two's-complement signed integer.
pub open spec fn spec_i16(d: Seq<u8>, end: int, pos: int) -> Result<(i16, int), Error> {
    match spec_u16(d, end, pos) {
        Ok((v, p)) => Ok((signed16(v) as i16, p)),
        Err(e) => Err(e),
    }
}

/// Read a big-endian 32-bit value as a two's-complement signed integer.
pub open spec fn spec_i32(d: Seq<u8>, end: int, pos: int) -> Result<(i32, int), Error> {
    match spec_u32(d, end, pos) {
        Ok((v, p)) => Ok((signed32(v) as i32, p)),
        Err(e) => Err(e),
    }
}

/// Read a big-endian 64-bit value as a two's-complement signed integer.
pub open spec fn spec_i64(d: Seq<u8>, end: int, pos: int) -> Result<(i64, int), Error> {
    match spec_u64(d, end, pos) {
        Ok((v, p)) => Ok((signed64(v) as i64, p)),
        Err(e) => Err(e),
    }
}

/// Skip `n` bytes of padding or reserved space.
pub open spec fn spec_skip(end: int, pos: int, n: int) -> Result<int, Error> {
    if pos + n <= end {
        Ok(pos + n)
    } else {
        Err(Error::NotEnoughData)
    }
}

/// Consume four bytes and require them to equal `expected` (big-endian);
/// a mismatch is `BadData` with the given reason.
pub open spec fn spec_expect4(
    d: Seq<u8>,
    end: int,
    pos: int,
    expected: u32,
    reason: BadDataReason,
) -> Result<int, Error> {
    match spec_u32(d, end, pos) {
        Ok((v, p)) => if v == expected {
            Ok(p)
        } else {
            Err(Error::BadData(reason))
        },
        Err(e) => Err(e),
    }
}

/// Consume one byte and require it to equal `expected`.
pub open spec fn spec_expect1(
    d: Seq<u8>,
    end: int,
    pos: int,
    expected: u8,
    reason: BadDataReason,
) -> Result<int, Error> {
    match spec_u8(d, end, pos) {
        Ok((v, p)) => if v == expected {
            Ok(p)
        } else {
            Err(Error::BadData(reason))
        },
        Err(e) => Err(e),
    }
}

/// Read `n` raw bytes.
pub open spec fn spec_buf(d: Seq<u8>, end: int, pos: int, n: int) -> Result<(Seq<u8>, int), Error> {
    if pos + n <= end {
        Ok((d.subrange(pos, pos + n), pos + n))
    } else {
        Err(Error::NotEnoughData)
    }
}

/// Read a length-prefixed blob: a 32-bit byte count, then that many bytes.
pub open spec fn spec_blob(d: Seq<u8>, end: int, pos: int) -> Result<(Seq<u8>, int), Error> {
    match spec_u32(d, end, pos) {
        Ok((n, p)) => spec_buf(d, end, p, n as int),
        Err(e) => Err(e),
    }
}

/// The `n` big-endian 16-bit code units stored from `pos` on.
pub open spec fn spec_utf16_units(d: Seq<u8>, pos: int, n: int) -> Seq<u16> {
    Seq::new(n as nat, |i: int| be_u16_at(d, pos + 2 * i))
}

/// Read a length-prefixed UTF-16 string: a 32-bit code-unit count, then
/// that many big-endian units, decoded to a host string.
pub open spec fn spec_utf16(d: Seq<u8>, end: int, pos: int) -> Result<(Seq<char>, int), Error> {
    match spec_u32(d, end, pos) {
        Ok((n, p)) => if p + 2 * n <= end {
            match utf16_decode(spec_utf16_units(d, p, n as int)) {
                Some(s) => Ok((s, p + 2 * n)),
                None => Err(Error::InvalidString),
            }
        } else {
            Err(Error::NotEnoughData)
        },
        Err(e) => Err(e),
    }
}

/// What `String::from_utf16` decodes a unit sequence to, if anything.
/// The result depends on the units alone.
pub uninterp spec fn utf16_decode(units: Seq<u16>) -> Option<Seq<char>>;

/// Relies on `String::from_utf16`: decodes UTF-16 code units to a string,
/// or fails on ill-formed input; the outcome depends on the units alone.
#[verifier::external_body]
fn utf16_to_string(units: &Vec<u16>) -> (r: Result<String, Error>)
    ensures
        match r {
            Ok(s) => utf16_decode(units@) == Some(s@),
            Err(e) => e == Error::InvalidString && utf16_decode(units@) is None,
        },
{
    match String::from_utf16(units) {
        Ok(s) => Ok(s),
        Err(_) => Err(Error::InvalidString),
    }
}

impl Cursor {
    /// Read one byte.
    pub fn read_u8(&mut self, data: &Vec<u8>) -> (r: Result<u8, Error>)
        requires
            old(self).wf(data@.len() as int),
        ensures
            final(self).wf(data@.len() as int),
            final(self).end == old(self).end,
            match spec_u8(data@, old(self).end as int, old(self).pos as int) {
                Ok(vp) => r == Ok::<u8, Error>(vp.0) && final(self).pos as int == vp.1,
                Err(e) => r == Err::<u8, Error>(e) && final(self).pos == old(self).pos,
            },
    {
        if self.end - self.pos >= 1 {
            let v = data[self.pos];
            self.pos = self.pos + 1;
            Ok(v)
        } else {
            Err(Error::NotEnoughData)
        }
    }

    /// Read a big-endian 16-bit value.
    pub fn read_u16(&mut self, data: &Vec<u8>) -> (r: Result<u16, Error>)
        requires
            old(self).wf(data@.len() as int),
        ensures
            final(self).wf(data@.len() as int),
            final(self).end == old(self).end,
            match spec_u16(data@, old(self).end as int, old(self).pos as int) {
                Ok(vp) => r == Ok::<u16, Error>(vp.0) && final(self).pos as int == vp.1,
                Err(e) => r == Err::<u16, Error>(e) && final(self).pos == old(self).pos,
            },
    {
        if self.end - self.pos >= 2 {
            let v = read_be_u16(data, self.pos);
            self.pos = self.pos + 2;
            Ok(v)
        } else {
            Err(Error::NotEnoughData)
        }
    }

    /// Read a big-endian 32-bit value.
    pub fn read_u32(&mut self, data: &Vec<u8>) -> (r: Result<u32, Error>)
        requires
            old(self).wf(data@.len() as int),
        ensures
            final(self).wf(data@.len() as int),
            final(self).end == old(self).end,
            match spec_u32(data@, old(self).end as int, old(self).pos as int) {
                Ok(vp) => r == Ok::<u32, Error>(vp.0) && final(self).pos as int == vp.1,
                Err(e) => r == Err::<u32, Error>(e) && final(self).pos == old(self).pos,
            },
    {
        if self.end - self.pos >= 4 {
            let v = read_be_u32(data, self.pos);
            self.pos = self.pos + 4;
            Ok(v)
        } else {
            Err(Error::NotEnoughData)
        }
    }

    /// Read a big-endian 64-bit value.
    pub fn read_u64(&mut self, data: &Vec<u8>) -> (r: Result<u64, Error>)
        requires
            old(self).wf(data@.len() as int),
        ensures
            final(self).wf(data@.len() as int),
            final(self).end == old(self).end,
            match spec_u64(data@, old(self).end as int, old(self).pos as int) {
                Ok(vp) => r == Ok::<u64, Error>(vp.0) && final(self).pos as int == vp.1,
                Err(e) => r == Err::<u64, Error>(e) && final(self).pos == old(self).pos,
            },
    {
        if self.end - self.pos >= 8 {
            let v = read_be_u64(data, self.pos);
            self.pos = self.pos + 8;
            Ok(v)
        } else {
            Err(Error::NotEnoughData)
        }
    }

    /// Read a big-endian 16-bit signed value.
    pub fn read_i16(&mut self, data: &Vec<u8>) -> (r: Result<i16, Error>)
        requires
            old(self).wf(data@.len() as int),
        ensures
            final(self).wf(data@.len() as int),
            final(self).end == old(self).end,
            match spec_i16(data@, old(self).end as int, old(self).pos as int) {
                Ok(vp) => r == Ok::<i16, Error>(vp.0) && final(self).pos as int == vp.1,
                Err(e) => r == Err::<i16, Error>(e) && final(self).pos == old(self).pos,
            },
    {
        match self.read_u16(data) {
            Ok(v) => Ok(to_i16(v)),
            Err(e) => Err(e),
        }
    }

    /// Read a big-endian 32-bit signed value.
    pub fn read_i32(&mut self, data: &Vec<u8>) -> (r: Result<i32, Error>)
        requires
            old(self).wf(data@.len() as int),
        ensures
            final(self).wf(data@.len() as int),
            final(self).end == old(self).end,
            match spec_i32(data@, old(self).end as int, old(self).pos as int) {
                Ok(vp) => r == Ok::<i32, Error>(vp.0) && final(self).pos as int == vp.1,
                Err(e) => r == Err::<i32, Error>(e) && final(self).pos == old(self).pos,
            },
    {
        match self.read_u32(data) {
            Ok(v) => Ok(to_i32(v)),
            Err(e) => Err(e),
        }
    }

    /// Read a big-endian 64-bit signed value.
    pub fn read_i64(&mut self, data: &Vec<u8>) -> (r: Result<i64, Error>)
        requires
            old(self).wf(data@.len() as int),
        ensures
            final(self).wf(data@.len() as int),
            final(self).end == old(self).end,
            match spec_i64(data@, old(self).end as int, old(self).pos as int) {
                Ok(vp) => r == Ok::<i64, Error>(vp.0) && final(self).pos as int == vp.1,
                Err(e) => r == Err::<i64, Error>(e) && final(self).pos == old(self).pos,
            },
    {
        match self.read_u64(data) {
            Ok(v) => Ok(to_i64(v)),
            Err(e) => Err(e),
        }
    }

    /// Skip `n` bytes of padding or reserved space.
    pub fn skip(&mut self, data: &Vec<u8>, n: usize) -> (r: Result<(), Error>)
        requires
            old(self).wf(data@.len() as int),
        ensures
            final(self).wf(data@.len() as int),
            final(self).end == old(self).end,
            match spec_skip(old(self).end as int, old(self).pos as int, n as int) {
                Ok(p) => r == Ok::<(), Error>(()) && final(self).pos as int == p,
                Err(e) => r == Err::<(), Error>(e) && final(self).pos == old(self).pos,
            },
    {
        if self.end - self.pos >= n {
            self.pos = self.pos + n;
            Ok(())
        } else {
            Err(Error::NotEnoughData)
        }
    }

    /// Consume four bytes and require them to equal `expected`.
    pub fn expect4(&mut self, data: &Vec<u8>, expected: u32, reason: BadDataReason) -> (r: Result<
        (),
        Error,
    >)
        requires
            old(self).wf(data@.len() as int),
        ensures
            final(self).wf(data@.len() as int),
            final(self).end == old(self).end,
            old(self).pos <= final(self).pos,
            match spec_expect4(
                data@,
                old(self).end as int,
                old(self).pos as int,
                expected,
                reason,
            ) {
                Ok(p) => r == Ok::<(), Error>(()) && final(self).pos as int == p,
                Err(e) => r == Err::<(), Error>(e) && final(self).pos as int == (
                match spec_u32(data@, old(self).end as int, old(self).pos as int) {
                    // mismatch: the four bytes stay consumed
                    Ok(vp) => vp.1,
                    // too short: the cursor has not moved
                    Err(_) => old(self).pos as int,
                }),
            },
    {
        match self.read_u32(data) {
            Ok(v) => if v == expected {
                Ok(())
            } else {
                Err(Error::BadData(reason))
            },
            Err(e) => Err(e),
        }
    }

    /// Consume one byte and require it to equal `expected`.
    pub fn expect1(&mut self, data: &Vec<u8>, expected: u8, reason: BadDataReason) -> (r: Result<
        (),
        Error,
    >)
        requires
            old(self).wf(data@.len() as int),
        ensures
            final(self).wf(data@.len() as int),
            final(self).end == old(self).end,
            old(self).pos <= final(self).pos,
            match spec_expect1(
                data@,
                old(self).end as int,
                old(self).pos as int,
                expected,
                reason,
            ) {
                Ok(p) => r == Ok::<(), Error>(()) && final(self).pos as int == p,
                Err(e) => r == Err::<(), Error>(e) && final(self).pos as int == (
                match spec_u8(data@, old(self).end as int, old(self).pos as int) {
                    // mismatch: the byte stays consumed
                    Ok(vp) => vp.1,
                    // too short: the cursor has not moved
                    Err(_) => old(self).pos as int,
                }),
            },
    {
        match self.read_u8(data) {
            Ok(v) => if v == expected {
                Ok(())
            } else {
                Err(Error::BadData(reason))
            },
            Err(e) => Err(e),
        }
    }

    /// Read `n` raw bytes, copied out of the buffer.
    pub fn read_buf(&mut self, data: &Vec<u8>, n: usize) -> (r: Result<Vec<u8>, Error>)
        requires
            old(self).wf(data@.len() as int),
        ensures
            final(self).wf(data@.len() as int),
            final(self).end == old(self).end,
            match spec_buf(data@, old(self).end as int, old(self).pos as int, n as int) {
                Ok(vp) => r is Ok && r->Ok_0@ == vp.0 && final(self).pos as int == vp.1,
                Err(e) => r == Err::<Vec<u8>, Error>(e) && final(self).pos == old(self).pos,
            },
    {
        if self.end - self.pos >= n {
            let mut out: Vec<u8> = Vec::new();
            let mut i: usize = 0;
            while i < n
                invariant
                    self.wf(data@.len() as int),
                    self.pos + n <= self.end,
                    i <= n,
                    out@ == data@.subrange(self.pos as int, self.pos as int + i as int),
                decreases n - i,
            {
                out.push(data[self.pos + i]);
                i = i + 1;
                proof {
                    assert(out@ =~= data@.subrange(self.pos as int, self.pos as int + i as int));
                }
            }
            self.pos = self.pos + n;
            Ok(out)
        } else {
            Err(Error::NotEnoughData)
        }
    }

    /// Read a length-prefixed blob: a 32-bit byte count, then that many
    /// bytes.
    pub fn read_blob(&mut self, data: &Vec<u8>) -> (r: Result<Vec<u8>, Error>)
        requires
            old(self).wf(data@.len() as int),
        ensures
            final(self).wf(data@.len() as int),
            final(self).end == old(self).end,
            old(self).pos <= final(self).pos,
            match spec_blob(data@, old(self).end as int, old(self).pos as int) {
                Ok(vp) => r is Ok && r->Ok_0@ == vp.0 && final(self).pos as int == vp.1,
                Err(e) => r == Err::<Vec<u8>, Error>(e) && final(self).pos as int == (
                match spec_u32(data@, old(self).end as int, old(self).pos as int) {
                    // the length was read but the bytes are missing
                    Ok(vp) => vp.1,
                    // too short for the length itself: the cursor has not moved
                    Err(_) => old(self).pos as int,
                }),
            },
    {
        let n = match self.read_u32(data) {
            Ok(n) => n,
            Err(e) => {
                return Err(e);
            },
        };
        self.read_buf(data, n as usize)
    }

    /// Read a length-prefixed UTF-16 string: a 32-bit code-unit count,
    /// then that many big-endian units, decoded to a host string.
    pub fn read_utf16(&mut self, data: &Vec<u8>) -> (r: Result<String, Error>)
        requires
            old(self).wf(data@.len() as int),
        ensures
            final(self).wf(data@.len() as int),
            final(self).end == old(self).end,
            old(self).pos <= final(self).pos,
            match spec_utf16(data@, old(self).end as int, old(self).pos as int) {
                Ok(vp) => r is Ok && r->Ok_0@ == vp.0 && final(self).pos as int == vp.1,
                Err(e) => r == Err::<String, Error>(e) && final(self).pos as int == (
                match spec_u32(data@, old(self).end as int, old(self).pos as int) {
                    // ill-formed UTF-16: every unit was consumed first;
                    // units missing: the cursor rests after the count
                    Ok(vp) => if vp.1 + 2 * vp.0 <= old(self).end as int {
                        vp.1 + 2 * vp.0
                    } else {
                        vp.1
                    },
                    // too short for the count itself: the cursor has not moved
                    Err(_) => old(self).pos as int,
                }),
            },
    {
        let n = match self.read_u32(data) {
            Ok(n) => n,
            Err(e) => {
                return Err(e);
            },
        };
        let ghost d = data@;
        let ghost p = self.pos as int;
        if (n as usize) > (self.end - self.pos) / 2 {
            return Err(Error::NotEnoughData);
        }
        let mut units: Vec<u16> = Vec::new();
        let mut i: u32 = 0;
        while i < n
            invariant
                self.wf(d.len() as int),
                self.end == old(self).end,
                data@ == d,
                i <= n,
                self.pos as int == p + 2 * i,
                p + 2 * n <= self.end,
                units@ == spec_utf16_units(d, p, i as int),
            decreases n - i,
        {
            let u = match self.read_u16(data) {
                Ok(u) => u,
                Err(e) => {
                    return Err(e);
                },
            };
            units.push(u);
            i = i + 1;
            proof {
                assert(units@ =~= spec_utf16_units(d, p, i as int));
            }
        }
        utf16_to_string(&units)
    }
}

} // verus!
