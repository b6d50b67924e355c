//! Deserialization of Molecule bytes in struct mode: a Molecule struct has
//! no header, so its fixed-size fields are read by a cursor running over an
//! owned byte buffer.

use vstd::prelude::*;
use vstd::bytes::{
    spec_u16_from_le_bytes, spec_u32_from_le_bytes, spec_u64_from_le_bytes,
    spec_u128_from_le_bytes, u16_from_le_bytes, u32_from_le_bytes, u64_from_le_bytes,
    u128_from_le_bytes,
};
use vstd::slice::slice_subrange;
use crate::error::Error;
use crate::numeric::{
    copy_range, spec_i8_of_u8, spec_i16_of_u16, spec_i32_of_u32, spec_i64_of_u64,
    spec_i128_of_u128, i8_of_u8, i16_of_u16, i32_of_u32, i64_of_u64, i128_of_u128,
};

verus! {

/// Raw bytes captured from a host framework so that a fresh struct-mode
/// read can be started on them.
pub struct CollectData {
    /// The captured bytes.
    pub data: Vec<u8>,
}

/// A cursor over the bytes of a Molecule struct. Each primitive read
/// consumes its fixed width; variable-size shapes have no place in a
/// Molecule struct.
pub struct MoleculeStructDeserializer {
    data: Vec<u8>,
    index: usize,
}

impl View for MoleculeStructDeserializer {
    type V = Seq<u8>;

    closed spec fn view(&self) -> Seq<u8> {
        self.data@
    }
}

impl MoleculeStructDeserializer {
    /// The position of the cursor.
    pub closed spec fn spec_index(&self) -> int {
        self.index as int
    }

    /// The cursor never passes the end of the buffer.
    pub closed spec fn wf(&self) -> bool {
        self.index <= self.data@.len()
    }

    /// Creates a cursor at the start of the given bytes.
    pub fn new(data: Vec<u8>) -> (r: Self)
        ensures
            r@ == data@,
            r.spec_index() == 0,
            r.wf(),
    {
        MoleculeStructDeserializer { data, index: 0 }
    }

    /// The bytes from the cursor to the end, for raw byte requests.
    pub fn remaining_bytes(&self) -> (r: Vec<u8>)
        requires
            self.wf(),
        ensures
            r@ == self@.skip(self.spec_index()),
    {
        let r = copy_range(self.data.as_slice(), self.index, self.data.len());
        proof {
            assert(r@ =~= self@.skip(self.spec_index()));
        }
        r
    }

    /// Reads one byte and advances.
    pub fn read_u8(&mut self) -> (r: Result<u8, Error>)
        requires
            old(self).wf(),
        ensures
            final(self)@ == old(self)@,
            final(self).wf(),
            match r {
                Ok(v) => old(self).spec_index() + 1 <= old(self)@.len() && v == old(self)@[old(
                    self,
                ).spec_index()] && final(self).spec_index() == old(self).spec_index() + 1,
                Err(e) => e == Error::MismatchedLength && old(self)@.len() < old(self).spec_index()
                    + 1 && final(self).spec_index() == old(self).spec_index(),
            },
    {
        if self.data.len() - self.index < 1 {
            return Err(Error::MismatchedLength);
        }
        let v = self.data[self.index];
        self.index = self.index + 1;
        Ok(v)
    }

    /// Reads two bytes as a little-endian `u16` and advances.
    pub fn read_u16(&mut self) -> (r: Result<u16, Error>)
        requires
            old(self).wf(),
        ensures
            final(self)@ == old(self)@,
            final(self).wf(),
            match r {
                Ok(v) => old(self).spec_index() + 2 <= old(self)@.len() && v
                    == spec_u16_from_le_bytes(
                    old(self)@.subrange(old(self).spec_index(), old(self).spec_index() + 2),
                ) && final(self).spec_index() == old(self).spec_index() + 2,
                Err(e) => e == Error::MismatchedLength && old(self)@.len() < old(self).spec_index()
                    + 2 && final(self).spec_index() == old(self).spec_index(),
            },
    {
        if self.data.len() - self.index < 2 {
            return Err(Error::MismatchedLength);
        }
        let s = slice_subrange(self.data.as_slice(), self.index, self.index + 2);
        let v = u16_from_le_bytes(s);
        self.index = self.index + 2;
        Ok(v)
    }

    /// Reads four bytes as a little-endian `u32` and advances.
    pub fn read_u32(&mut self) -> (r: Result<u32, Error>)
        requires
            old(self).wf(),
        ensures
            final(self)@ == old(self)@,
            final(self).wf(),
            match r {
                Ok(v) => old(self).spec_index() + 4 <= old(self)@.len() && v
                    == spec_u32_from_le_bytes(
                    old(self)@.subrange(old(self).spec_index(), old(self).spec_index() + 4),
                ) && final(self).spec_index() == old(self).spec_index() + 4,
                Err(e) => e == Error::MismatchedLength && old(self)@.len() < old(self).spec_index()
                    + 4 && final(self).spec_index() == old(self).spec_index(),
            },
    {
        if self.data.len() - self.index < 4 {
            return Err(Error::MismatchedLength);
        }
        let s = slice_subrange(self.data.as_slice(), self.index, self.index + 4);
        let v = u32_from_le_bytes(s);
        self.index = self.index + 4;
        Ok(v)
    }

    /// Reads eight bytes as a little-endian `u64` and advances.
    pub fn read_u64(&mut self) -> (r: Result<u64, Error>)
        requires
            old(self).wf(),
        ensures
            final(self)@ == old(self)@,
            final(self).wf(),
            match r {
                Ok(v) => old(self).spec_index() + 8 <= old(self)@.len() && v
                    == spec_u64_from_le_bytes(
                    old(self)@.subrange(old(self).spec_index(), old(self).spec_index() + 8),
                ) && final(self).spec_index() == old(self).spec_index() + 8,
                Err(e) => e == Error::MismatchedLength && old(self)@.len() < old(self).spec_index()
                    + 8 && final(self).spec_index() == old(self).spec_index(),
            },
    {
        if self.data.len() - self.index < 8 {
            return Err(Error::MismatchedLength);
        }
        let s = slice_subrange(self.data.as_slice(), self.index, self.index + 8);
        let v = u64_from_le_bytes(s);
        self.index = self.index + 8;
        Ok(v)
    }

    /// Reads sixteen bytes as a little-endian `u128` and advances.
    pub fn read_u128(&mut self) -> (r: Result<u128, Error>)
        requires
            old(self).wf(),
        ensures
            final(self)@ == old(self)@,
            final(self).wf(),
            match r {
                Ok(v) => old(self).spec_index() + 16 <= old(self)@.len() && v
                    == spec_u128_from_le_bytes(
                    old(self)@.subrange(old(self).spec_index(), old(self).spec_index() + 16),
                ) && final(self).spec_index() == old(self).spec_index() + 16,
                Err(e) => e == Error::MismatchedLength && old(self)@.len() < old(self).spec_index()
                    + 16 && final(self).spec_index() == old(self).spec_index(),
            },
    {
        if self.data.len() - self.index < 16 {
            return Err(Error::MismatchedLength);
        }
        let s = slice_subrange(self.data.as_slice(), self.index, self.index + 16);
        let v = u128_from_le_bytes(s);
        self.index = self.index + 16;
        Ok(v)
    }

    /// Reads one two's-complement byte as an `i8` and advances.
    pub fn read_i8(&mut self) -> (r: Result<i8, Error>)
        requires
            old(self).wf(),
        ensures
            final(self)@ == old(self)@,
            final(self).wf(),
            match r {
                Ok(v) => old(self).spec_index() + 1 <= old(self)@.len() && v == spec_i8_of_u8(
                    old(self)@[old(self).spec_index()],
                ) && final(self).spec_index() == old(self).spec_index() + 1,
                Err(e) => e == Error::MismatchedLength && old(self)@.len() < old(self).spec_index()
                    + 1 && final(self).spec_index() == old(self).spec_index(),
            },
    {
        match self.read_u8() {
            Ok(v) => Ok(i8_of_u8(v)),
            Err(e) => Err(e),
        }
    }

    /// Reads two bytes as a little-endian `i16` and advances.
    pub fn read_i16(&mut self) -> (r: Result<i16, Error>)
        requires
            old(self).wf(),
        ensures
            final(self)@ == old(self)@,
            final(self).wf(),
            match r {
                Ok(v) => old(self).spec_index() + 2 <= old(self)@.len() && v == spec_i16_of_u16(
                    spec_u16_from_le_bytes(
                        old(self)@.subrange(old(self).spec_index(), old(self).spec_index() + 2),
                    ),
                ) && final(self).spec_index() == old(self).spec_index() + 2,
                Err(e) => e == Error::MismatchedLength && old(self)@.len() < old(self).spec_index()
                    + 2 && final(self).spec_index() == old(self).spec_index(),
            },
    {
        match self.read_u16() {
            Ok(v) => Ok(i16_of_u16(v)),
            Err(e) => Err(e),
        }
    }

    /// Reads four bytes as a little-endian `i32` and advances.
    pub fn read_i32(&mut self) -> (r: Result<i32, Error>)
        requires
            old(self).wf(),
        ensures
            final(self)@ == old(self)@,
            final(self).wf(),
            match r {
                Ok(v) => old(self).spec_index() + 4 <= old(self)@.len() && v == spec_i32_of_u32(
                    spec_u32_from_le_bytes(
                        old(self)@.subrange(old(self).spec_index(), old(self).spec_index() + 4),
                    ),
                ) && final(self).spec_index() == old(self).spec_index() + 4,
                Err(e) => e == Error::MismatchedLength && old(self)@.len() < old(self).spec_index()
                    + 4 && final(self).spec_index() == old(self).spec_index(),
            },
    {
        match self.read_u32() {
            Ok(v) => Ok(i32_of_u32(v)),
            Err(e) => Err(e),
        }
    }

    /// Reads eight bytes as a little-endian `i64` and advances.
    pub fn read_i64(&mut self) -> (r: Result<i64, Error>)
        requires
            old(self).wf(),
        ensures
            final(self)@ == old(self)@,
            final(self).wf(),
            match r {
                Ok(v) => old(self).spec_index() + 8 <= old(self)@.len() && v == spec_i64_of_u64(
                    spec_u64_from_le_bytes(
                        old(self)@.subrange(old(self).spec_index(), old(self).spec_index() + 8),
                    ),
                ) && final(self).spec_index() == old(self).spec_index() + 8,
                Err(e) => e == Error::MismatchedLength && old(self)@.len() < old(self).spec_index()
                    + 8 && final(self).spec_index() == old(self).spec_index(),
            },
    {
        match self.read_u64() {
            Ok(v) => Ok(i64_of_u64(v)),
            Err(e) => Err(e),
        }
    }

    /// Reads sixteen bytes as a little-endian `i128` and advances.
    pub fn read_i128(&mut self) -> (r: Result<i128, Error>)
        requires
            old(self).wf(),
        ensures
            final(self)@ == old(self)@,
            final(self).wf(),
            match r {
                Ok(v) => old(self).spec_index() + 16 <= old(self)@.len() && v == spec_i128_of_u128(
                    spec_u128_from_le_bytes(
                        old(self)@.subrange(old(self).spec_index(), old(self).spec_index() + 16),
                    ),
                ) && final(self).spec_index() == old(self).spec_index() + 16,
                Err(e) => e == Error::MismatchedLength && old(self)@.len() < old(self).spec_index()
                    + 16 && final(self).spec_index() == old(self).spec_index(),
            },
    {
        match self.read_u128() {
            Ok(v) => Ok(i128_of_u128(v)),
            Err(e) => Err(e),
        }
    }

    /// Reads one byte as a `bool` and advances: zero is false, any other
    /// value true.
    pub fn read_bool(&mut self) -> (r: Result<bool, Error>)
        requires
            old(self).wf(),
        ensures
            final(self)@ == old(self)@,
            final(self).wf(),
            match r {
                Ok(v) => old(self).spec_index() + 1 <= old(self)@.len() && v == (old(self)@[old(
                    self,
                ).spec_index()] != 0) && final(self).spec_index() == old(self).spec_index() + 1,
                Err(e) => e == Error::MismatchedLength && old(self)@.len() < old(self).spec_index()
                    + 1 && final(self).spec_index() == old(self).spec_index(),
            },
    {
        match self.read_u8() {
            Ok(v) => Ok(v != 0),
            Err(e) => Err(e),
        }
    }
}

/// A counter over the declared fields of a struct-mode record; the fields
/// themselves are read from the shared cursor in declaration order.
pub struct StructAccess {
    current_index: usize,
    count: usize,
}

impl StructAccess {
    /// The position of the cursor.
    pub closed spec fn spec_index(&self) -> int {
        self.current_index as int
    }

    /// The declared field count.
    pub closed spec fn spec_count(&self) -> int {
        self.count as int
    }

    /// Creates a counter for `count` declared fields.
    pub fn new(count: usize) -> (r: Self)
        ensures
            r.spec_index() == 0,
            r.spec_count() == count,
    {
        StructAccess { current_index: 0, count }
    }

    /// The key for the next field is its declared index, or `None` once the
    /// declared count is reached. The counter does not move.
    pub fn next_key(&mut self) -> (r: Option<u64>)
        ensures
            *final(self) == *old(self),
            match r {
                Some(k) => old(self).spec_index() < old(self).spec_count() && k == old(
                    self,
                ).spec_index(),
                None => old(self).spec_index() >= old(self).spec_count(),
            },
    {
        if self.current_index < self.count {
            Some(self.current_index as u64)
        } else {
            None
        }
    }

    /// Moves past the field whose value is about to be read.
    pub fn advance(&mut self)
        requires
            old(self).spec_index() < old(self).spec_count(),
        ensures
            final(self).spec_index() == old(self).spec_index() + 1,
            final(self).spec_count() == old(self).spec_count(),
    {
        self.current_index = self.current_index + 1;
    }
}

/// A counter over the elements of a struct-mode array; the elements are
/// read from the shared cursor one after the other.
pub struct ArrayAccess {
    current_index: usize,
    count: usize,
}

impl ArrayAccess {
    /// The position of the cursor.
    pub closed spec fn spec_index(&self) -> int {
        self.current_index as int
    }

    /// The declared element count.
    pub closed spec fn spec_count(&self) -> int {
        self.count as int
    }

    /// Creates a counter for `count` elements.
    pub fn new(count: usize) -> (r: Self)
        ensures
            r.spec_index() == 0,
            r.spec_count() == count,
    {
        ArrayAccess { current_index: 0, count }
    }

    /// Moves past the next element if one is left, saying whether it was.
    pub fn try_advance(&mut self) -> (r: bool)
        ensures
            final(self).spec_count() == old(self).spec_count(),
            if r {
                old(self).spec_index() < old(self).spec_count() && final(self).spec_index() == old(
                    self,
                ).spec_index() + 1
            } else {
                old(self).spec_index() >= old(self).spec_count() && final(self).spec_index() == old(
                    self,
                ).spec_index()
            },
    {
        if self.current_index < self.count {
            self.current_index = self.current_index + 1;
            true
        } else {
            false
        }
    }
}

} // verus!
