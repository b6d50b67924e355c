//! Deserialization of Molecule bytes in table mode: a deserializer over one
//! composite's bytes, and the access cursors that walk arrays, fixvecs,
//! tables, dynvecs, maps and unions for a host framework.

use vstd::prelude::*;
use vstd::bytes::{
    spec_u16_from_le_bytes, spec_u32_from_le_bytes, spec_u64_from_le_bytes,
    spec_u128_from_le_bytes, u16_from_le_bytes, u32_from_le_bytes, u64_from_le_bytes,
    u128_from_le_bytes, spec_u32_to_le_bytes, lemma_auto_spec_u32_to_from_le_bytes,
};
use vstd::slice::slice_to_vec;
use vstd::arithmetic::div_mod::lemma_fundamental_div_mod;
use vstd::arithmetic::mul::{lemma_mul_inequality, lemma_mul_nonnegative};
use crate::error::Error;
use crate::molecule::{
    disassemble_fixvec, disassemble_table, spec_disassemble_fixvec,
    spec_disassemble_table, spec_unpack_number, unpack_number, views,
};
use crate::numeric::{
    copy_range, spec_i8_of_u8, spec_i16_of_u16, spec_i32_of_u32, spec_i64_of_u64,
    spec_i128_of_u128, i8_of_u8, i16_of_u16, i32_of_u32, i64_of_u64, i128_of_u128,
};

verus! {

/// Whether `v` is a Unicode scalar value: not a surrogate, at most 0x10FFFF.
pub open spec fn is_unicode_scalar(v: u32) -> bool {
    v < 0xD800 || (0xE000 <= v && v < 0x11_0000)
}

/// Relies on char::from_u32: it returns the character with the given scalar
/// value exactly when that value is a Unicode scalar value.
#[verifier::external_body]
fn char_from_u32(v: u32) -> (r: Option<char>)
    ensures
        r is Some <==> is_unicode_scalar(v),
        r matches Some(c) ==> c as u32 == v,
{
    char::from_u32(v)
}

/// The result of reading a buffer as a fixvec of bytes: the count word must
/// equal the number of bytes that follow it.
pub open spec fn spec_disassemble_bytes(data: Seq<u8>) -> Result<Seq<u8>, Error> {
    match spec_unpack_number(data, 0) {
        None => Err(Error::LengthNotEnough),
        Some(count) => {
            if count as int != data.len() - 4 {
                Err(Error::InvalidFixvec)
            } else {
                Ok(data.skip(4))
            }
        },
    }
}

/// Round trip of byte-string framing: a 4-byte length prefix followed by
/// that many bytes reads back as those bytes.
pub proof fn lemma_bytes_round_trip(b: Seq<u8>)
    requires
        b.len() <= u32::MAX,
    ensures
        spec_disassemble_bytes(spec_u32_to_le_bytes(b.len() as u32) + b) == Ok::<Seq<u8>, Error>(b),
{
    lemma_auto_spec_u32_to_from_le_bytes();
    let data = spec_u32_to_le_bytes(b.len() as u32) + b;
    assert(data.subrange(0, 4) =~= spec_u32_to_le_bytes(b.len() as u32));
    assert(data.skip(4) =~= b);
}

/// A deserializer over the bytes of one Molecule composite, read in table
/// mode.
pub struct MoleculeDeserializer {
    data: Vec<u8>,
}

impl View for MoleculeDeserializer {
    type V = Seq<u8>;

    closed spec fn view(&self) -> Seq<u8> {
        self.data@
    }
}

impl MoleculeDeserializer {
    /// Creates a deserializer over a copy of the given bytes.
    pub fn new(data: &[u8]) -> (r: Self)
        ensures
            r@ == data@,
    {
        MoleculeDeserializer { data: slice_to_vec(data) }
    }

    /// The number of bytes of the composite.
    pub fn len(&self) -> (r: usize)
        ensures
            r == self@.len(),
    {
        self.data.len()
    }

    /// Whether the composite is empty; an empty slice decodes as an absent
    /// option.
    pub fn is_empty(&self) -> (r: bool)
        ensures
            r == (self@.len() == 0),
    {
        self.data.len() == 0
    }

    /// A copy of the underlying bytes, for raw byte requests.
    pub fn bytes(&self) -> (r: Vec<u8>)
        ensures
            r@ == self@,
    {
        copy_range(self.data.as_slice(), 0, self.data.len())
    }

    /// Reads the composite as a `u8`: it must be exactly one byte.
    pub fn as_u8(&self) -> (r: Result<u8, Error>)
        ensures
            match r {
                Ok(v) => self@.len() == 1 && v == self@[0],
                Err(e) => self@.len() != 1 && e == Error::MismatchedLength,
            },
    {
        if self.data.len() != 1 {
            Err(Error::MismatchedLength)
        } else {
            Ok(self.data[0])
        }
    }

    /// Reads the composite as a little-endian `u16`: exactly two bytes.
    pub fn as_u16(&self) -> (r: Result<u16, Error>)
        ensures
            match r {
                Ok(v) => self@.len() == 2 && v == spec_u16_from_le_bytes(self@),
                Err(e) => self@.len() != 2 && e == Error::MismatchedLength,
            },
    {
        if self.data.len() != 2 {
            Err(Error::MismatchedLength)
        } else {
            Ok(u16_from_le_bytes(self.data.as_slice()))
        }
    }

    /// Reads the composite as a little-endian `u32`: exactly four bytes.
    pub fn as_u32(&self) -> (r: Result<u32, Error>)
        ensures
            match r {
                Ok(v) => self@.len() == 4 && v == spec_u32_from_le_bytes(self@),
                Err(e) => self@.len() != 4 && e == Error::MismatchedLength,
            },
    {
        if self.data.len() != 4 {
            Err(Error::MismatchedLength)
        } else {
            Ok(u32_from_le_bytes(self.data.as_slice()))
        }
    }

    /// Reads the composite as a little-endian `u64`: exactly eight bytes.
    pub fn as_u64(&self) -> (r: Result<u64, Error>)
        ensures
            match r {
                Ok(v) => self@.len() == 8 && v == spec_u64_from_le_bytes(self@),
                Err(e) => self@.len() != 8 && e == Error::MismatchedLength,
            },
    {
        if self.data.len() != 8 {
            Err(Error::MismatchedLength)
        } else {
            Ok(u64_from_le_bytes(self.data.as_slice()))
        }
    }

    /// Reads the composite as a little-endian `u128`: exactly sixteen bytes.
    pub fn as_u128(&self) -> (r: Result<u128, Error>)
        ensures
            match r {
                Ok(v) => self@.len() == 16 && v == spec_u128_from_le_bytes(self@),
                Err(e) => self@.len() != 16 && e == Error::MismatchedLength,
            },
    {
        if self.data.len() != 16 {
            Err(Error::MismatchedLength)
        } else {
            Ok(u128_from_le_bytes(self.data.as_slice()))
        }
    }

    /// Reads the composite as an `i8`: one two's-complement byte.
    pub fn as_i8(&self) -> (r: Result<i8, Error>)
        ensures
            match r {
                Ok(v) => self@.len() == 1 && v == spec_i8_of_u8(self@[0]),
                Err(e) => self@.len() != 1 && e == Error::MismatchedLength,
            },
    {
        match self.as_u8() {
            Ok(v) => Ok(i8_of_u8(v)),
            Err(e) => Err(e),
        }
    }

    /// Reads the composite as a little-endian `i16`.
    pub fn as_i16(&self) -> (r: Result<i16, Error>)
        ensures
            match r {
                Ok(v) => self@.len() == 2 && v == spec_i16_of_u16(spec_u16_from_le_bytes(self@)),
                Err(e) => self@.len() != 2 && e == Error::MismatchedLength,
            },
    {
        match self.as_u16() {
            Ok(v) => Ok(i16_of_u16(v)),
            Err(e) => Err(e),
        }
    }

    /// Reads the composite as a little-endian `i32`.
    pub fn as_i32(&self) -> (r: Result<i32, Error>)
        ensures
            match r {
                Ok(v) => self@.len() == 4 && v == spec_i32_of_u32(spec_u32_from_le_bytes(self@)),
                Err(e) => self@.len() != 4 && e == Error::MismatchedLength,
            },
    {
        match self.as_u32() {
            Ok(v) => Ok(i32_of_u32(v)),
            Err(e) => Err(e),
        }
    }

    /// Reads the composite as a little-endian `i64`.
    pub fn as_i64(&self) -> (r: Result<i64, Error>)
        ensures
            match r {
                Ok(v) => self@.len() == 8 && v == spec_i64_of_u64(spec_u64_from_le_bytes(self@)),
                Err(e) => self@.len() != 8 && e == Error::MismatchedLength,
            },
    {
        match self.as_u64() {
            Ok(v) => Ok(i64_of_u64(v)),
            Err(e) => Err(e),
        }
    }

    /// Reads the composite as a little-endian `i128`.
    pub fn as_i128(&self) -> (r: Result<i128, Error>)
        ensures
            match r {
                Ok(v) => self@.len() == 16 && v == spec_i128_of_u128(
                    spec_u128_from_le_bytes(self@),
                ),
                Err(e) => self@.len() != 16 && e == Error::MismatchedLength,
            },
    {
        match self.as_u128() {
            Ok(v) => Ok(i128_of_u128(v)),
            Err(e) => Err(e),
        }
    }

    /// Reads the composite as a `bool`: one byte, zero for false and any
    /// other value for true.
    pub fn as_bool(&self) -> (r: Result<bool, Error>)
        ensures
            match r {
                Ok(v) => self@.len() == 1 && v == (self@[0] != 0),
                Err(e) => self@.len() != 1 && e == Error::MismatchedLength,
            },
    {
        match self.as_u8() {
            Ok(v) => Ok(v != 0),
            Err(e) => Err(e),
        }
    }

    /// Reads the composite as a `char`: four little-endian bytes that must
    /// hold a Unicode scalar value.
    pub fn as_char(&self) -> (r: Result<char, Error>)
        ensures
            match r {
                Ok(c) => self@.len() == 4 && is_unicode_scalar(spec_u32_from_le_bytes(self@)) && c
                    as u32 == spec_u32_from_le_bytes(self@),
                Err(e) => (e == Error::MismatchedLength && self@.len() != 4) || (e
                    == Error::InvalidChar && self@.len() == 4 && !is_unicode_scalar(
                    spec_u32_from_le_bytes(self@),
                )),
            },
    {
        let value = match self.as_u32() {
            Ok(v) => v,
            Err(e) => {
                return Err(e);
            },
        };
        match char_from_u32(value) {
            Some(ch) => Ok(ch),
            None => Err(Error::InvalidChar),
        }
    }

    /// Reads the composite as a fixvec of bytes, the framing of strings and
    /// byte strings: the count word must equal the remaining byte count.
    pub fn disassemble_bytes(&self) -> (r: Result<Vec<u8>, Error>)
        ensures
            match r {
                Ok(v) => spec_disassemble_bytes(self@) == Ok::<Seq<u8>, Error>(v@),
                Err(e) => spec_disassemble_bytes(self@) == Err::<Seq<u8>, Error>(e),
            },
    {
        let item_count = match unpack_number(self.data.as_slice(), 0) {
            Ok(c) => c,
            Err(e) => {
                return Err(e);
            },
        };
        if item_count != self.data.len() - 4 {
            Err(Error::InvalidFixvec)
        } else {
            let r = copy_range(self.data.as_slice(), 4, self.data.len());
            proof {
                assert(r@ =~= self@.skip(4));
            }
            Ok(r)
        }
    }

    /// Reads a union: the leading 4-byte little-endian tag is removed from
    /// the composite and returned widened to 64 bits.
    pub fn take_union_tag(&mut self) -> (r: Result<u64, Error>)
        ensures
            match r {
                Ok(tag) => old(self)@.len() >= 4 && tag == spec_u32_from_le_bytes(
                    old(self)@.subrange(0, 4),
                ) as u64 && final(self)@ == old(self)@.skip(4),
                Err(e) => e == Error::LengthNotEnough && old(self)@.len() < 4 && final(self)@ == old(self)@,
            },
    {
        let id = match unpack_number(self.data.as_slice(), 0) {
            Ok(v) => v,
            Err(e) => {
                return Err(e);
            },
        };
        let rest = copy_range(self.data.as_slice(), 4, self.data.len());
        proof {
            assert(rest@ =~= self@.skip(4));
        }
        self.data = rest;
        Ok(id as u64)
    }
}

/// A cursor over the equal-sized elements of a Molecule array (a tuple of
/// `count` items with no header).
pub struct ArrayAccess {
    data: Vec<u8>,
    current_index: usize,
    count: usize,
    item_size: usize,
}

impl ArrayAccess {
    /// The bytes of the composite being split.
    pub closed spec fn data_view(&self) -> Seq<u8> {
        self.data@
    }

    /// The position of the cursor.
    pub closed spec fn spec_index(&self) -> int {
        self.current_index as int
    }

    /// The declared element count.
    pub closed spec fn spec_count(&self) -> int {
        self.count as int
    }

    /// The size of each element, fixed by `parse`.
    pub closed spec fn spec_item_size(&self) -> int {
        self.item_size as int
    }

    /// The elements never reach past the end of the buffer.
    pub closed spec fn wf(&self) -> bool {
        self.count * self.item_size <= self.data@.len()
    }

    /// Creates a cursor over the deserializer's bytes for `count` elements.
    pub fn new(de: &MoleculeDeserializer, count: usize) -> (r: Self)
        ensures
            r.data_view() == de@,
            r.spec_index() == 0,
            r.spec_count() == count,
            r.spec_item_size() == 0,
            r.wf(),
    {
        let r = ArrayAccess { data: de.bytes(), current_index: 0, count, item_size: 0 };
        proof {
            vstd::arithmetic::mul::lemma_mul_basics_3(r.count as int);
        }
        r
    }

    /// Fixes the element size: the buffer length must divide evenly into the
    /// declared nonzero count.
    pub fn parse(&mut self) -> (r: Result<(), Error>)
        ensures
            final(self).data_view() == old(self).data_view(),
            final(self).spec_index() == old(self).spec_index(),
            final(self).spec_count() == old(self).spec_count(),
            old(self).wf() ==> final(self).wf(),
            match r {
                Ok(()) => old(self).spec_count() != 0 && old(self).data_view().len() as int % old(self).spec_count() == 0 && final(self).spec_item_size() == old(self).data_view().len()
                    as int / old(self).spec_count(),
                Err(e) => e == Error::InvalidArray && (old(self).spec_count() == 0 || old(self).data_view().len() as int % old(self).spec_count() != 0) && final(self).spec_item_size()
                    == old(self).spec_item_size(),
            },
    {
        if self.count == 0 {
            return Err(Error::InvalidArray);
        }
        if self.data.len() % self.count == 0 {
            self.item_size = self.data.len() / self.count;
            proof {
                lemma_fundamental_div_mod(self.data@.len() as int, self.count as int);
            }
            Ok(())
        } else {
            Err(Error::InvalidArray)
        }
    }

    /// Hands out the bytes of the next element, or `None` past the end.
    pub fn next_element(&mut self) -> (r: Option<Vec<u8>>)
        requires
            old(self).wf(),
        ensures
            final(self).data_view() == old(self).data_view(),
            final(self).spec_count() == old(self).spec_count(),
            final(self).spec_item_size() == old(self).spec_item_size(),
            final(self).wf(),
            match r {
                Some(part) => old(self).spec_index() < old(self).spec_count() && part@ == old(self).data_view().subrange(
                    old(self).spec_index() * old(self).spec_item_size(),
                    (old(self).spec_index() + 1) * old(self).spec_item_size(),
                ) && final(self).spec_index() == old(self).spec_index() + 1,
                None => old(self).spec_index() >= old(self).spec_count() && final(self).spec_index()
                    == old(self).spec_index(),
            },
    {
        if self.current_index < self.count {
            let dlen = self.data.len();
            proof {
                lemma_mul_inequality(
                    self.current_index as int + 1,
                    self.count as int,
                    self.item_size as int,
                );
                vstd::arithmetic::mul::lemma_mul_is_distributive_add_other_way(
                    self.item_size as int,
                    self.current_index as int,
                    1,
                );
                lemma_mul_nonnegative(self.current_index as int, self.item_size as int);
            }
            let start = self.current_index * self.item_size;
            let end = (self.current_index + 1) * self.item_size;
            let part = copy_range(self.data.as_slice(), start, end);
            self.current_index = self.current_index + 1;
            Some(part)
        } else {
            None
        }
    }
}

/// A cursor over the items of a Molecule fixvec.
pub struct FixvecAccess {
    data: Vec<u8>,
    current_index: usize,
    parts: Vec<Vec<u8>>,
}

impl FixvecAccess {
    /// The bytes of the composite being split.
    pub closed spec fn data_view(&self) -> Seq<u8> {
        self.data@
    }

    /// The position of the cursor.
    pub closed spec fn spec_index(&self) -> int {
        self.current_index as int
    }

    /// The items found by `parse`.
    pub closed spec fn parts_view(&self) -> Seq<Seq<u8>> {
        views(self.parts@)
    }

    /// Creates a cursor over the deserializer's bytes.
    pub fn new(de: &MoleculeDeserializer) -> (r: Self)
        ensures
            r.data_view() == de@,
            r.spec_index() == 0,
            r.parts_view() == Seq::<Seq<u8>>::empty(),
    {
        let r = FixvecAccess { data: de.bytes(), current_index: 0, parts: Vec::new() };
        proof {
            assert(r.parts_view() =~= Seq::<Seq<u8>>::empty());
        }
        r
    }

    /// Splits the buffer as a fixvec.
    pub fn parse(&mut self) -> (r: Result<(), Error>)
        ensures
            final(self).data_view() == old(self).data_view(),
            final(self).spec_index() == old(self).spec_index(),
            match r {
                Ok(()) => spec_disassemble_fixvec(old(self).data_view()) == Ok::<
                    Seq<Seq<u8>>,
                    Error,
                >(final(self).parts_view()),
                Err(e) => spec_disassemble_fixvec(old(self).data_view()) == Err::<
                    Seq<Seq<u8>>,
                    Error,
                >(e) && final(self).parts_view() == old(self).parts_view(),
            },
    {
        match disassemble_fixvec(self.data.as_slice()) {
            Ok(parts) => {
                self.parts = parts;
                Ok(())
            },
            Err(e) => Err(e),
        }
    }

    /// Hands out a copy of the next item, or `None` past the end.
    pub fn next_element(&mut self) -> (r: Option<Vec<u8>>)
        ensures
            final(self).data_view() == old(self).data_view(),
            final(self).parts_view() == old(self).parts_view(),
            match r {
                Some(part) => old(self).spec_index() < old(self).parts_view().len() && part@ == old(self).parts_view()[old(self).spec_index()] && final(self).spec_index() == old(self).spec_index() + 1,
                None => old(self).spec_index() >= old(self).parts_view().len() && final(self).spec_index() == old(self).spec_index(),
            },
    {
        if self.current_index < self.parts.len() {
            let part = copy_range(
                self.parts[self.current_index].as_slice(),
                0,
                self.parts[self.current_index].len(),
            );
            proof {
                assert(part@ =~= self.parts_view()[self.current_index as int]);
            }
            self.current_index = self.current_index + 1;
            Some(part)
        } else {
            None
        }
    }
}

/// A cursor over the fields of a Molecule table with a declared field
/// count. Extra trailing fields beyond the declared count are permitted and
/// ignored: the decoder is forward-compatible.
pub struct TableAccess {
    data: Vec<u8>,
    current_index: usize,
    count: usize,
    parts: Vec<Vec<u8>>,
}

impl TableAccess {
    /// The bytes of the composite being split.
    pub closed spec fn data_view(&self) -> Seq<u8> {
        self.data@
    }

    /// The position of the cursor.
    pub closed spec fn spec_index(&self) -> int {
        self.current_index as int
    }

    /// The declared field count.
    pub closed spec fn spec_count(&self) -> int {
        self.count as int
    }

    /// The fields found by `parse`.
    pub closed spec fn parts_view(&self) -> Seq<Seq<u8>> {
        views(self.parts@)
    }

    /// Creates a cursor over the deserializer's bytes for a table of
    /// `count` declared fields.
    pub fn new(de: &MoleculeDeserializer, count: usize) -> (r: Self)
        ensures
            r.data_view() == de@,
            r.spec_index() == 0,
            r.spec_count() == count,
            r.parts_view() == Seq::<Seq<u8>>::empty(),
    {
        let r = TableAccess { data: de.bytes(), current_index: 0, count, parts: Vec::new() };
        proof {
            assert(r.parts_view() =~= Seq::<Seq<u8>>::empty());
        }
        r
    }

    /// Splits the buffer as a table. The table may hold more fields than
    /// declared (forward compatibility), but not fewer.
    pub fn parse(&mut self) -> (r: Result<(), Error>)
        ensures
            final(self).data_view() == old(self).data_view(),
            final(self).spec_index() == old(self).spec_index(),
            final(self).spec_count() == old(self).spec_count(),
            match r {
                Ok(()) => spec_disassemble_table(old(self).data_view()) == Ok::<
                    Seq<Seq<u8>>,
                    Error,
                >(final(self).parts_view()) && final(self).parts_view().len() >= old(self).spec_count(),
                Err(e) => final(self).parts_view() == old(self).parts_view() && match spec_disassemble_table(
                    old(self).data_view(),
                ) {
                    Ok(ps) => e == Error::MismatchedTableFieldCount && ps.len() < old(self).spec_count(),
                    Err(e2) => e == e2,
                },
            },
    {
        match disassemble_table(self.data.as_slice()) {
            Ok(parts) => {
                if parts.len() < self.count {
                    return Err(Error::MismatchedTableFieldCount);
                }
                self.parts = parts;
                Ok(())
            },
            Err(e) => Err(e),
        }
    }

    /// The key for the next field is its declared index, or `None` once the
    /// declared count is reached. The cursor does not move.
    pub fn next_key(&mut self) -> (r: Option<u64>)
        ensures
            *final(self) == *old(self),
            match r {
                Some(k) => old(self).spec_index() < old(self).spec_count() && k == old(self).spec_index(),
                None => old(self).spec_index() >= old(self).spec_count(),
            },
    {
        if self.current_index < self.count {
            Some(self.current_index as u64)
        } else {
            None
        }
    }

    /// Hands out a copy of the field under the cursor and advances.
    pub fn next_value(&mut self) -> (r: Vec<u8>)
        requires
            old(self).spec_index() < old(self).parts_view().len(),
        ensures
            final(self).data_view() == old(self).data_view(),
            final(self).spec_count() == old(self).spec_count(),
            final(self).parts_view() == old(self).parts_view(),
            final(self).spec_index() == old(self).spec_index() + 1,
            r@ == old(self).parts_view()[old(self).spec_index()],
    {
        let n = self.parts.len();
        let part = copy_range(
            self.parts[self.current_index].as_slice(),
            0,
            self.parts[self.current_index].len(),
        );
        proof {
            assert(part@ =~= self.parts_view()[self.current_index as int]);
        }
        self.current_index = self.current_index + 1;
        part
    }
}

/// The scan of map entries from item `i` on: each item must itself be a
/// table of exactly two fields, a key and a value.
pub open spec fn spec_parse_entries_from(items: Seq<Seq<u8>>, i: int) -> Result<
    Seq<(Seq<u8>, Seq<u8>)>,
    Error,
>
    decreases items.len() - i,
{
    if i < 0 || i >= items.len() {
        Ok(Seq::empty())
    } else {
        match spec_disassemble_table(items[i]) {
            Err(e) => Err(e),
            Ok(kv) => {
                if kv.len() != 2 {
                    Err(Error::InvalidMap)
                } else {
                    match spec_parse_entries_from(items, i + 1) {
                        Err(e) => Err(e),
                        Ok(rest) => Ok(seq![(kv[0], kv[1])] + rest),
                    }
                }
            },
        }
    }
}

/// The result of reading a buffer as a map: an outer table whose items are
/// two-field tables holding a key and a value.
pub open spec fn spec_parse_mapping(data: Seq<u8>) -> Result<Seq<(Seq<u8>, Seq<u8>)>, Error> {
    match spec_disassemble_table(data) {
        Err(e) => Err(e),
        Ok(items) => spec_parse_entries_from(items, 0),
    }
}

/// Accumulated map entries followed by the still-unscanned rest.
pub open spec fn compose_entries(
    pre: Seq<(Seq<u8>, Seq<u8>)>,
    rest: Result<Seq<(Seq<u8>, Seq<u8>)>, Error>,
) -> Result<Seq<(Seq<u8>, Seq<u8>)>, Error> {
    match rest {
        Ok(r) => Ok(pre + r),
        Err(e) => Err(e),
    }
}

/// A cursor over the key-value entries of a Molecule map.
pub struct MappingAccess {
    data: Vec<u8>,
    current_index: usize,
    keys: Vec<Vec<u8>>,
    values: Vec<Vec<u8>>,
}

impl MappingAccess {
    /// The bytes of the composite being split.
    pub closed spec fn data_view(&self) -> Seq<u8> {
        self.data@
    }

    /// The position of the cursor.
    pub closed spec fn spec_index(&self) -> int {
        self.current_index as int
    }

    /// The key-value entries found by `parse`.
    pub closed spec fn pairs_view(&self) -> Seq<(Seq<u8>, Seq<u8>)> {
        Seq::new(self.keys@.len() as nat, |j: int| (self.keys@[j]@, self.values@[j]@))
    }

    /// Keys and values come in pairs.
    pub closed spec fn wf(&self) -> bool {
        self.keys@.len() == self.values@.len()
    }

    /// Creates a cursor over the deserializer's bytes.
    pub fn new(de: &MoleculeDeserializer) -> (r: Self)
        ensures
            r.data_view() == de@,
            r.spec_index() == 0,
            r.pairs_view() == Seq::<(Seq<u8>, Seq<u8>)>::empty(),
            r.wf(),
    {
        let r = MappingAccess {
            data: de.bytes(),
            current_index: 0,
            keys: Vec::new(),
            values: Vec::new(),
        };
        proof {
            assert(r.pairs_view() =~= Seq::<(Seq<u8>, Seq<u8>)>::empty());
        }
        r
    }

    /// Splits the buffer as a map: an outer table of entries, each entry a
    /// two-field table.
    pub fn parse(&mut self) -> (r: Result<(), Error>)
        requires
            old(self).wf(),
        ensures
            final(self).data_view() == old(self).data_view(),
            final(self).spec_index() == old(self).spec_index(),
            final(self).wf(),
            match r {
                Ok(()) => spec_parse_mapping(old(self).data_view()) == Ok::<
                    Seq<(Seq<u8>, Seq<u8>)>,
                    Error,
                >(final(self).pairs_view()),
                Err(e) => spec_parse_mapping(old(self).data_view()) == Err::<
                    Seq<(Seq<u8>, Seq<u8>)>,
                    Error,
                >(e) && final(self).pairs_view() == old(self).pairs_view(),
            },
    {
        let all = match disassemble_table(self.data.as_slice()) {
            Ok(a) => a,
            Err(e) => {
                return Err(e);
            },
        };
        let ghost items = views(all@);
        let mut keys: Vec<Vec<u8>> = Vec::new();
        let mut values: Vec<Vec<u8>> = Vec::new();
        let mut i: usize = 0;
        proof {
            if let Ok(rest) = spec_parse_entries_from(items, 0) {
                assert(Seq::<(Seq<u8>, Seq<u8>)>::empty() + rest =~= rest);
            }
            assert(Seq::new(keys@.len() as nat, |j: int| (keys@[j]@, values@[j]@)) =~= Seq::<
                (Seq<u8>, Seq<u8>),
            >::empty());
        }
        while i < all.len()
            invariant
                i <= all@.len(),
                items == views(all@),
                *self == *old(self),
                old(self).wf(),
                spec_disassemble_table(old(self).data_view()) == Ok::<Seq<Seq<u8>>, Error>(items),
                keys@.len() == i,
                values@.len() == i,
                spec_parse_entries_from(items, 0) == compose_entries(
                    Seq::new(keys@.len() as nat, |j: int| (keys@[j]@, values@[j]@)),
                    spec_parse_entries_from(items, i as int),
                ),
            decreases all@.len() - i,
        {
            let ghost pre = Seq::new(keys@.len() as nat, |j: int| (keys@[j]@, values@[j]@));
            proof {
                assert(items[i as int] == all@[i as int]@);
            }
            let mut kv = match disassemble_table(all[i].as_slice()) {
                Ok(kv) => kv,
                Err(e) => {
                    return Err(e);
                },
            };
            if kv.len() != 2 {
                return Err(Error::InvalidMap);
            }
            let value = match kv.pop() {
                Some(v) => v,
                None => {
                    return Err(Error::InvalidMap);
                },
            };
            let key = match kv.pop() {
                Some(k) => k,
                None => {
                    return Err(Error::InvalidMap);
                },
            };
            proof {
                let kvs = spec_disassemble_table(items[i as int])->Ok_0;
                assert(key@ == kvs[0] && value@ == kvs[1]);
            }
            keys.push(key);
            values.push(value);
            i = i + 1;
            proof {
                let now = Seq::new(keys@.len() as nat, |j: int| (keys@[j]@, values@[j]@));
                let kvs = spec_disassemble_table(items[i - 1])->Ok_0;
                assert(now =~= pre.push((kvs[0], kvs[1])));
                if let Ok(rest2) = spec_parse_entries_from(items, i as int) {
                    assert(pre + (seq![(kvs[0], kvs[1])] + rest2) =~= now + rest2);
                }
            }
        }
        proof {
            let now = Seq::new(keys@.len() as nat, |j: int| (keys@[j]@, values@[j]@));
            assert(spec_parse_entries_from(items, i as int) == Ok::<
                Seq<(Seq<u8>, Seq<u8>)>,
                Error,
            >(Seq::empty()));
            assert(now + Seq::<(Seq<u8>, Seq<u8>)>::empty() =~= now);
        }
        self.keys = keys;
        self.values = values;
        proof {
            assert(self.pairs_view() =~= Seq::new(
                self.keys@.len() as nat,
                |j: int| (self.keys@[j]@, self.values@[j]@),
            ));
        }
        Ok(())
    }

    /// Hands out a copy of the key under the cursor, or `None` past the
    /// end. The cursor does not move.
    pub fn next_key(&mut self) -> (r: Option<Vec<u8>>)
        ensures
            *final(self) == *old(self),
            match r {
                Some(k) => old(self).spec_index() < old(self).pairs_view().len() && k@ == old(
                    self,
                ).pairs_view()[old(self).spec_index()].0,
                None => old(self).spec_index() >= old(self).pairs_view().len(),
            },
    {
        if self.current_index < self.keys.len() {
            let key = copy_range(
                self.keys[self.current_index].as_slice(),
                0,
                self.keys[self.current_index].len(),
            );
            proof {
                assert(key@ =~= self.pairs_view()[self.current_index as int].0);
            }
            Some(key)
        } else {
            None
        }
    }

    /// Hands out a copy of the value under the cursor and advances.
    pub fn next_value(&mut self) -> (r: Vec<u8>)
        requires
            old(self).wf(),
            old(self).spec_index() < old(self).pairs_view().len(),
        ensures
            final(self).data_view() == old(self).data_view(),
            final(self).pairs_view() == old(self).pairs_view(),
            final(self).wf(),
            final(self).spec_index() == old(self).spec_index() + 1,
            r@ == old(self).pairs_view()[old(self).spec_index()].1,
    {
        let n = self.values.len();
        let value = copy_range(
            self.values[self.current_index].as_slice(),
            0,
            self.values[self.current_index].len(),
        );
        proof {
            assert(value@ =~= self.pairs_view()[self.current_index as int].1);
        }
        self.current_index = self.current_index + 1;
        value
    }
}

/// A cursor over the items of a Molecule dynvec, which has the same layout
/// as a table but no declared count: items are keyed by position.
pub struct DynvecAccess {
    data: Vec<u8>,
    current_index: usize,
    parts: Vec<Vec<u8>>,
}

impl DynvecAccess {
    /// The bytes of the composite being split.
    pub closed spec fn data_view(&self) -> Seq<u8> {
        self.data@
    }

    /// The position of the cursor.
    pub closed spec fn spec_index(&self) -> int {
        self.current_index as int
    }

    /// The items found by `parse`.
    pub closed spec fn parts_view(&self) -> Seq<Seq<u8>> {
        views(self.parts@)
    }

    /// Creates a cursor over the deserializer's bytes.
    pub fn new(de: &MoleculeDeserializer) -> (r: Self)
        ensures
            r.data_view() == de@,
            r.spec_index() == 0,
            r.parts_view() == Seq::<Seq<u8>>::empty(),
    {
        let r = DynvecAccess { data: de.bytes(), current_index: 0, parts: Vec::new() };
        proof {
            assert(r.parts_view() =~= Seq::<Seq<u8>>::empty());
        }
        r
    }

    /// Splits the buffer as a dynvec (table layout).
    pub fn parse(&mut self) -> (r: Result<(), Error>)
        ensures
            final(self).data_view() == old(self).data_view(),
            final(self).spec_index() == old(self).spec_index(),
            match r {
                Ok(()) => spec_disassemble_table(old(self).data_view()) == Ok::<
                    Seq<Seq<u8>>,
                    Error,
                >(final(self).parts_view()),
                Err(e) => spec_disassemble_table(old(self).data_view()) == Err::<
                    Seq<Seq<u8>>,
                    Error,
                >(e) && final(self).parts_view() == old(self).parts_view(),
            },
    {
        match disassemble_table(self.data.as_slice()) {
            Ok(parts) => {
                self.parts = parts;
                Ok(())
            },
            Err(e) => Err(e),
        }
    }

    /// The key for the next item is its position, or `None` past the end.
    /// The cursor does not move.
    pub fn next_key(&mut self) -> (r: Option<u64>)
        ensures
            *final(self) == *old(self),
            match r {
                Some(k) => old(self).spec_index() < old(self).parts_view().len() && k == old(self).spec_index(),
                None => old(self).spec_index() >= old(self).parts_view().len(),
            },
    {
        if self.current_index < self.parts.len() {
            Some(self.current_index as u64)
        } else {
            None
        }
    }

    /// Hands out a copy of the item under the cursor and advances.
    pub fn next_value(&mut self) -> (r: Vec<u8>)
        requires
            old(self).spec_index() < old(self).parts_view().len(),
        ensures
            final(self).data_view() == old(self).data_view(),
            final(self).parts_view() == old(self).parts_view(),
            final(self).spec_index() == old(self).spec_index() + 1,
            r@ == old(self).parts_view()[old(self).spec_index()],
    {
        let n = self.parts.len();
        let part = copy_range(
            self.parts[self.current_index].as_slice(),
            0,
            self.parts[self.current_index].len(),
        );
        proof {
            assert(part@ =~= self.parts_view()[self.current_index as int]);
        }
        self.current_index = self.current_index + 1;
        part
    }
}

} // verus!
