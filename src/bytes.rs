//! Byte containers that mod scripts build and edit: a growable builder and
//! a fixed-size byte array with little-endian accessors, and the 16.16
//! fixed-point representations they store.

use vstd::prelude::*;
use vstd::slice::{slice_subrange, slice_to_vec};

verus! {

/// Unsigned 16.16 fixed point, by its raw bits.
#[derive(Clone, Copy, Debug, PartialEq, Eq, Structural)]
pub struct UQ16_16(pub u32);

impl UQ16_16 {
    pub fn from_u32(v: u32) -> (r: UQ16_16)
        ensures
            r.0 == v,
    {
        UQ16_16(v)
    }

    pub fn into_u32(self) -> (r: u32)
        ensures
            r == self.0,
    {
        self.0
    }
}

/// Signed 16.16 fixed point, by its raw bits.
#[derive(Clone, Copy, Debug, PartialEq, Eq, Structural)]
pub struct IQ16_16(pub i32);

impl IQ16_16 {
    pub fn from_i32(v: i32) -> (r: IQ16_16)
        ensures
            r.0 == v,
    {
        IQ16_16(v)
    }

    pub fn into_i32(self) -> (r: i32)
        ensures
            r == self.0,
    {
        self.0
    }
}

/// The two little-endian bytes of `x`.
pub open spec fn u16_bytes(x: u16) -> Seq<u8> {
    seq![(x % 256) as u8, (x / 256) as u8]
}

/// The four little-endian bytes of `x`.
pub open spec fn u32_bytes(x: u32) -> Seq<u8> {
    seq![(x % 256) as u8, (x / 256 % 256) as u8, (x / 65536 % 256) as u8, (x / 16777216) as u8]
}

pub open spec fn le_u16(b: Seq<u8>, i: int) -> u16 {
    (b[i] as int + 256 * b[i + 1] as int) as u16
}

pub open spec fn le_u32(b: Seq<u8>, i: int) -> u32 {
    (b[i] as int + 256 * b[i + 1] as int + 65536 * b[i + 2] as int + 16777216 * b[i + 3] as int) as u32
}

/// Whether `n` bytes starting at `i` lie within `len` bytes.
pub open spec fn in_bounds(len: int, i: int, n: int) -> bool {
    0 <= i && 0 <= n && i + n <= len
}

/// An access outside the array.
#[derive(Clone, Copy, Debug, PartialEq, Eq, Structural)]
pub struct OutOfBounds;

fn push_u16(out: &mut Vec<u8>, x: u16)
    ensures
        final(out)@ == old(out)@ + u16_bytes(x),
{
    out.push((x % 256) as u8);
    out.push((x / 256) as u8);
    assert(final(out)@ =~= old(out)@ + u16_bytes(x));
}

fn push_u32(out: &mut Vec<u8>, x: u32)
    ensures
        final(out)@ == old(out)@ + u32_bytes(x),
{
    out.push((x % 256) as u8);
    out.push((x / 256 % 256) as u8);
    out.push((x / 65536 % 256) as u8);
    out.push((x / 16777216) as u8);
    assert(final(out)@ =~= old(out)@ + u32_bytes(x));
}

/// A growable byte buffer that values are appended to.
pub struct Builder(Vec<u8>);

impl View for Builder {
    type V = Seq<u8>;

    closed spec fn view(&self) -> Seq<u8> {
        self.0@
    }
}

impl Builder {
    pub fn new() -> (r: Builder)
        ensures
            r@ == Seq::<u8>::empty(),
    {
        Builder(Vec::new())
    }

    /// Number of bytes written so far.
    pub fn tell(&self) -> (r: usize)
        ensures
            r == self@.len(),
    {
        self.0.len()
    }

    /// The bytes written so far.
    pub fn build(&self) -> (r: Vec<u8>)
        ensures
            r@ == self@,
    {
        slice_to_vec(self.0.as_slice())
    }

    pub fn write(&mut self, bytes: &[u8])
        ensures
            final(self)@ == old(self)@ + bytes@,
    {
        let mut v = slice_to_vec(bytes);
        self.0.append(&mut v);
    }

    pub fn write_u8(&mut self, v: u8)
        ensures
            final(self)@ == old(self)@.push(v),
    {
        self.0.push(v);
    }

    pub fn write_u16_le(&mut self, v: u16)
        ensures
            final(self)@ == old(self)@ + u16_bytes(v),
    {
        push_u16(&mut self.0, v);
    }

    pub fn write_u32_le(&mut self, v: u32)
        ensures
            final(self)@ == old(self)@ + u32_bytes(v),
    {
        push_u32(&mut self.0, v);
    }

    pub fn write_i8(&mut self, v: i8)
        ensures
            final(self)@ == old(self)@.push(v as u8),
    {
        self.0.push(v as u8);
    }

    pub fn write_i16_le(&mut self, v: i16)
        ensures
            final(self)@ == old(self)@ + u16_bytes(v as u16),
    {
        push_u16(&mut self.0, v as u16);
    }

    pub fn write_i32_le(&mut self, v: i32)
        ensures
            final(self)@ == old(self)@ + u32_bytes(v as u32),
    {
        push_u32(&mut self.0, v as u32);
    }
}

/// A byte array of fixed size whose bytes can be read and overwritten.
pub struct ByteArray(Vec<u8>);

impl View for ByteArray {
    type V = Seq<u8>;

    closed spec fn view(&self) -> Seq<u8> {
        self.0@
    }
}

impl ByteArray {
    pub fn new(v: Vec<u8>) -> (r: ByteArray)
        ensures
            r@ == v@,
    {
        ByteArray(v)
    }

    pub fn len(&self) -> (r: usize)
        ensures
            r == self@.len(),
    {
        self.0.len()
    }

    /// The bytes of `self` followed by those of `other`.
    pub fn concat(&self, other: &ByteArray) -> (r: ByteArray)
        ensures
            r@ == self@ + other@,
    {
        let mut out = slice_to_vec(self.0.as_slice());
        let mut tail = slice_to_vec(other.0.as_slice());
        out.append(&mut tail);
        ByteArray(out)
    }

    /// The `n` bytes at `i`.
    pub fn get(&self, i: usize, n: usize) -> (r: Result<Vec<u8>, OutOfBounds>)
        ensures
            in_bounds(self@.len() as int, i as int, n as int) ==> (r matches Ok(v) && v@ == self@.subrange(i as int, i + n)),
            !in_bounds(self@.len() as int, i as int, n as int) ==> r is Err,
    {
        if i > self.0.len() || n > self.0.len() - i {
            return Err(OutOfBounds);
        }
        Ok(slice_to_vec(slice_subrange(self.0.as_slice(), i, i + n)))
    }

    /// Overwrites the bytes at `i` with `bytes`; out of bounds, nothing changes.
    pub fn set(&mut self, i: usize, bytes: &[u8]) -> (r: Result<(), OutOfBounds>)
        ensures
            in_bounds(old(self)@.len() as int, i as int, bytes@.len() as int) ==> {
                &&& r is Ok
                &&& final(self)@.len() == old(self)@.len()
                &&& final(self)@ == old(self)@.subrange(0, i as int) + bytes@
                    + old(self)@.subrange(i + bytes@.len(), old(self)@.len() as int)
            },
            !in_bounds(old(self)@.len() as int, i as int, bytes@.len() as int) ==> r is Err && final(self)@ == old(self)@,
    {
        let n = bytes.len();
        if i > self.0.len() || n > self.0.len() - i {
            return Err(OutOfBounds);
        }
        let len = self.0.len();
        let mut k: usize = 0;
        while k < n
            invariant
                n == bytes@.len(),
                len == old(self)@.len(),
                i + n <= len,
                k <= n,
                self@.len() == old(self)@.len(),
                forall|j: int| 0 <= j < self@.len() ==> #[trigger] self@[j] == if i <= j < i + k {
                    bytes@[j - i]
                } else {
                    old(self)@[j]
                },
            decreases n - k,
        {
            self.0.set(i + k, bytes[k]);
            k += 1;
        }
        assert(self@ =~= old(self)@.subrange(0, i as int) + bytes@
            + old(self)@.subrange(i + n, old(self)@.len() as int));
        Ok(())
    }

    pub fn get_u8(&self, i: usize) -> (r: Result<u8, OutOfBounds>)
        ensures
            i < self@.len() ==> r == Ok::<u8, OutOfBounds>(self@[i as int]),
            i >= self@.len() ==> r is Err,
    {
        if i >= self.0.len() {
            return Err(OutOfBounds);
        }
        Ok(self.0[i])
    }

    pub fn set_u8(&mut self, i: usize, v: u8) -> (r: Result<(), OutOfBounds>)
        ensures
            i < old(self)@.len() ==> r is Ok && final(self)@ == old(self)@.update(i as int, v),
            i >= old(self)@.len() ==> r is Err && final(self)@ == old(self)@,
    {
        if i >= self.0.len() {
            return Err(OutOfBounds);
        }
        self.0.set(i, v);
        Ok(())
    }

    pub fn get_u16_le(&self, i: usize) -> (r: Result<u16, OutOfBounds>)
        ensures
            in_bounds(self@.len() as int, i as int, 2) ==> r == Ok::<u16, OutOfBounds>(le_u16(self@, i as int)),
            !in_bounds(self@.len() as int, i as int, 2) ==> r is Err,
    {
        if i > self.0.len() || 2 > self.0.len() - i {
            return Err(OutOfBounds);
        }
        Ok(self.0[i] as u16 + 256 * (self.0[i + 1] as u16))
    }

    pub fn get_u32_le(&self, i: usize) -> (r: Result<u32, OutOfBounds>)
        ensures
            in_bounds(self@.len() as int, i as int, 4) ==> r == Ok::<u32, OutOfBounds>(le_u32(self@, i as int)),
            !in_bounds(self@.len() as int, i as int, 4) ==> r is Err,
    {
        if i > self.0.len() || 4 > self.0.len() - i {
            return Err(OutOfBounds);
        }
        Ok(self.0[i] as u32 + 256 * (self.0[i + 1] as u32) + 65536 * (self.0[i + 2] as u32)
            + 16777216 * (self.0[i + 3] as u32))
    }

    pub fn set_u16_le(&mut self, i: usize, v: u16) -> (r: Result<(), OutOfBounds>)
        ensures
            in_bounds(old(self)@.len() as int, i as int, 2) ==> r is Ok && final(self)@
                == old(self)@.subrange(0, i as int) + u16_bytes(v) + old(self)@.subrange(i + 2, old(self)@.len() as int),
            !in_bounds(old(self)@.len() as int, i as int, 2) ==> r is Err && final(self)@ == old(self)@,
    {
        let mut b: Vec<u8> = Vec::new();
        push_u16(&mut b, v);
        self.set(i, b.as_slice())
    }

    pub fn set_u32_le(&mut self, i: usize, v: u32) -> (r: Result<(), OutOfBounds>)
        ensures
            in_bounds(old(self)@.len() as int, i as int, 4) ==> r is Ok && final(self)@
                == old(self)@.subrange(0, i as int) + u32_bytes(v) + old(self)@.subrange(i + 4, old(self)@.len() as int),
            !in_bounds(old(self)@.len() as int, i as int, 4) ==> r is Err && final(self)@ == old(self)@,
    {
        let mut b: Vec<u8> = Vec::new();
        push_u32(&mut b, v);
        self.set(i, b.as_slice())
    }

    pub fn get_i8(&self, i: usize) -> (r: Result<i8, OutOfBounds>)
        ensures
            i < self@.len() ==> r == Ok::<i8, OutOfBounds>(self@[i as int] as i8),
            i >= self@.len() ==> r is Err,
    {
        match self.get_u8(i) {
            Ok(v) => Ok(v as i8),
            Err(e) => Err(e),
        }
    }

    pub fn get_i16_le(&self, i: usize) -> (r: Result<i16, OutOfBounds>)
        ensures
            in_bounds(self@.len() as int, i as int, 2) ==> r == Ok::<i16, OutOfBounds>(le_u16(self@, i as int) as i16),
            !in_bounds(self@.len() as int, i as int, 2) ==> r is Err,
    {
        match self.get_u16_le(i) {
            Ok(v) => Ok(v as i16),
            Err(e) => Err(e),
        }
    }

    pub fn get_i32_le(&self, i: usize) -> (r: Result<i32, OutOfBounds>)
        ensures
            in_bounds(self@.len() as int, i as int, 4) ==> r == Ok::<i32, OutOfBounds>(le_u32(self@, i as int) as i32),
            !in_bounds(self@.len() as int, i as int, 4) ==> r is Err,
    {
        match self.get_u32_le(i) {
            Ok(v) => Ok(v as i32),
            Err(e) => Err(e),
        }
    }

    pub fn set_i8(&mut self, i: usize, v: i8) -> (r: Result<(), OutOfBounds>)
        ensures
            i < old(self)@.len() ==> r is Ok && final(self)@ == old(self)@.update(i as int, v as u8),
            i >= old(self)@.len() ==> r is Err && final(self)@ == old(self)@,
    {
        self.set_u8(i, v as u8)
    }

    pub fn set_i16_le(&mut self, i: usize, v: i16) -> (r: Result<(), OutOfBounds>)
        ensures
            in_bounds(old(self)@.len() as int, i as int, 2) ==> r is Ok && final(self)@
                == old(self)@.subrange(0, i as int) + u16_bytes(v as u16) + old(self)@.subrange(i + 2, old(self)@.len() as int),
            !in_bounds(old(self)@.len() as int, i as int, 2) ==> r is Err && final(self)@ == old(self)@,
    {
        self.set_u16_le(i, v as u16)
    }

    pub fn set_i32_le(&mut self, i: usize, v: i32) -> (r: Result<(), OutOfBounds>)
        ensures
            in_bounds(old(self)@.len() as int, i as int, 4) ==> r is Ok && final(self)@
                == old(self)@.subrange(0, i as int) + u32_bytes(v as u32) + old(self)@.subrange(i + 4, old(self)@.len() as int),
            !in_bounds(old(self)@.len() as int, i as int, 4) ==> r is Err && final(self)@ == old(self)@,
    {
        self.set_u32_le(i, v as u32)
    }

    /// The bytes of the array.
    pub fn to_vec(&self) -> (r: Vec<u8>)
        ensures
            r@ == self@,
    {
        slice_to_vec(self.0.as_slice())
    }
}

} // verus!
