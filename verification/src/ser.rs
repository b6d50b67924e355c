//! Serialization into Molecule bytes: the byte-buffer serializer state and
//! the per-shape collectors that a host framework's callbacks drive.
//!
//! The serializer appends the little-endian bytes of each primitive it is
//! handed. Composite values are gathered by a collector (`FixVec`, `Tuple`,
//! `Table`, `MapBuilder`): the already-encoded bytes of each child are
//! pushed, and `end` assembles the matching Molecule shape onto the
//! serializer.

use vstd::prelude::*;
use vstd::bytes::{
    spec_u16_to_le_bytes, spec_u32_to_le_bytes, spec_u64_to_le_bytes, spec_u128_to_le_bytes,
    u16_to_le_bytes, u32_to_le_bytes, u64_to_le_bytes, u128_to_le_bytes,
};
use vstd::string::StringSliceAdditionalSpecFns;
use crate::error::Error;
use crate::molecule::{
    assemble_struct, assemble_table, assemble_fixvec, fixvec_assemblable, lemma_sum_take_le,
    lemma_take_full, lemma_take_snoc, spec_assemble_fixvec, spec_assemble_table, spec_concat,
    sum_len, table_total, views,
};
use crate::numeric::{
    extend_bytes, spec_u8_of_i8, spec_u16_of_i16, spec_u32_of_i32, spec_u64_of_i64,
    spec_u128_of_i128, u8_of_i8, u16_of_i16, u32_of_i32, u64_of_i64, u128_of_i128,
};

verus! {

/// A growing byte buffer collecting Molecule output, together with the mode
/// of the value being encoded: `true` when the current record maps to a
/// Molecule struct, `false` when it maps to a Molecule table.
pub struct MoleculeSerializer {
    data: Vec<u8>,
    is_struct: bool,
}

impl View for MoleculeSerializer {
    type V = Seq<u8>;

    closed spec fn view(&self) -> Seq<u8> {
        self.data@
    }
}

impl MoleculeSerializer {
    /// Whether the value being encoded maps to a Molecule struct.
    pub closed spec fn spec_is_struct(&self) -> bool {
        self.is_struct
    }

    /// Creates a serializer with an empty buffer.
    pub fn new(is_struct: bool) -> (r: Self)
        ensures
            r@ == Seq::<u8>::empty(),
            r.spec_is_struct() == is_struct,
    {
        MoleculeSerializer { data: Vec::new(), is_struct }
    }

    /// Returns the collected bytes.
    pub fn into_data(self) -> (r: Vec<u8>)
        ensures
            r@ == self@,
    {
        self.data
    }

    /// Appends raw bytes to the buffer.
    pub fn extend(&mut self, data: &[u8])
        ensures
            final(self)@ == old(self)@ + data@,
            final(self).spec_is_struct() == old(self).spec_is_struct(),
    {
        extend_bytes(&mut self.data, data);
    }

    /// Whether the value being encoded maps to a Molecule struct.
    pub fn is_struct(&self) -> (r: bool)
        ensures
            r == self.spec_is_struct(),
    {
        self.is_struct
    }

    /// A `bool` is one byte: 1 for true, 0 for false.
    pub fn serialize_bool(&mut self, value: bool) -> (r: Result<(), Error>)
        ensures
            r is Ok,
            final(self)@ == old(self)@ + seq![if value { 1u8 } else { 0u8 }],
            final(self).spec_is_struct() == old(self).spec_is_struct(),
    {
        let byte: u8 = if value { 1 } else { 0 };
        self.data.push(byte);
        Ok(())
    }

    /// An `i8` is its one two's-complement byte.
    pub fn serialize_i8(&mut self, value: i8) -> (r: Result<(), Error>)
        ensures
            r is Ok,
            final(self)@ == old(self)@ + seq![spec_u8_of_i8(value)],
            final(self).spec_is_struct() == old(self).spec_is_struct(),
    {
        self.data.push(u8_of_i8(value));
        Ok(())
    }

    /// An `i16` is two little-endian two's-complement bytes.
    pub fn serialize_i16(&mut self, value: i16) -> (r: Result<(), Error>)
        ensures
            r is Ok,
            final(self)@ == old(self)@ + spec_u16_to_le_bytes(spec_u16_of_i16(value)),
            final(self).spec_is_struct() == old(self).spec_is_struct(),
    {
        let mut bytes = u16_to_le_bytes(u16_of_i16(value));
        self.data.append(&mut bytes);
        Ok(())
    }

    /// An `i32` is four little-endian two's-complement bytes.
    pub fn serialize_i32(&mut self, value: i32) -> (r: Result<(), Error>)
        ensures
            r is Ok,
            final(self)@ == old(self)@ + spec_u32_to_le_bytes(spec_u32_of_i32(value)),
            final(self).spec_is_struct() == old(self).spec_is_struct(),
    {
        let mut bytes = u32_to_le_bytes(u32_of_i32(value));
        self.data.append(&mut bytes);
        Ok(())
    }

    /// An `i64` is eight little-endian two's-complement bytes.
    pub fn serialize_i64(&mut self, value: i64) -> (r: Result<(), Error>)
        ensures
            r is Ok,
            final(self)@ == old(self)@ + spec_u64_to_le_bytes(spec_u64_of_i64(value)),
            final(self).spec_is_struct() == old(self).spec_is_struct(),
    {
        let mut bytes = u64_to_le_bytes(u64_of_i64(value));
        self.data.append(&mut bytes);
        Ok(())
    }

    /// An `i128` is sixteen little-endian two's-complement bytes.
    pub fn serialize_i128(&mut self, value: i128) -> (r: Result<(), Error>)
        ensures
            r is Ok,
            final(self)@ == old(self)@ + spec_u128_to_le_bytes(spec_u128_of_i128(value)),
            final(self).spec_is_struct() == old(self).spec_is_struct(),
    {
        let mut bytes = u128_to_le_bytes(u128_of_i128(value));
        self.data.append(&mut bytes);
        Ok(())
    }

    /// A `u8` is its one byte.
    pub fn serialize_u8(&mut self, value: u8) -> (r: Result<(), Error>)
        ensures
            r is Ok,
            final(self)@ == old(self)@ + seq![value],
            final(self).spec_is_struct() == old(self).spec_is_struct(),
    {
        self.data.push(value);
        Ok(())
    }

    /// A `u16` is two little-endian bytes.
    pub fn serialize_u16(&mut self, value: u16) -> (r: Result<(), Error>)
        ensures
            r is Ok,
            final(self)@ == old(self)@ + spec_u16_to_le_bytes(value),
            final(self).spec_is_struct() == old(self).spec_is_struct(),
    {
        let mut bytes = u16_to_le_bytes(value);
        self.data.append(&mut bytes);
        Ok(())
    }

    /// A `u32` is four little-endian bytes.
    pub fn serialize_u32(&mut self, value: u32) -> (r: Result<(), Error>)
        ensures
            r is Ok,
            final(self)@ == old(self)@ + spec_u32_to_le_bytes(value),
            final(self).spec_is_struct() == old(self).spec_is_struct(),
    {
        let mut bytes = u32_to_le_bytes(value);
        self.data.append(&mut bytes);
        Ok(())
    }

    /// A `u64` is eight little-endian bytes.
    pub fn serialize_u64(&mut self, value: u64) -> (r: Result<(), Error>)
        ensures
            r is Ok,
            final(self)@ == old(self)@ + spec_u64_to_le_bytes(value),
            final(self).spec_is_struct() == old(self).spec_is_struct(),
    {
        let mut bytes = u64_to_le_bytes(value);
        self.data.append(&mut bytes);
        Ok(())
    }

    /// A `u128` is sixteen little-endian bytes.
    pub fn serialize_u128(&mut self, value: u128) -> (r: Result<(), Error>)
        ensures
            r is Ok,
            final(self)@ == old(self)@ + spec_u128_to_le_bytes(value),
            final(self).spec_is_struct() == old(self).spec_is_struct(),
    {
        let mut bytes = u128_to_le_bytes(value);
        self.data.append(&mut bytes);
        Ok(())
    }

    /// A `char` is its Unicode scalar value as four little-endian bytes.
    pub fn serialize_char(&mut self, value: char) -> (r: Result<(), Error>)
        ensures
            r is Ok,
            final(self)@ == old(self)@ + spec_u32_to_le_bytes(value as u32),
            final(self).spec_is_struct() == old(self).spec_is_struct(),
    {
        let mut bytes = u32_to_le_bytes(value as u32);
        self.data.append(&mut bytes);
        Ok(())
    }

    /// A string is framed as a fixvec of bytes: a 4-byte little-endian byte
    /// length, then its UTF-8 bytes.
    pub fn serialize_str(&mut self, value: &str) -> (r: Result<(), Error>)
        requires
            value.spec_bytes().len() <= u32::MAX,
        ensures
            r is Ok,
            final(self)@ == old(self)@ + spec_u32_to_le_bytes(value.spec_bytes().len() as u32)
                + value.spec_bytes(),
            final(self).spec_is_struct() == old(self).spec_is_struct(),
    {
        let bytes = value.as_bytes();
        let len: u32 = bytes.len() as u32;
        let mut header = u32_to_le_bytes(len);
        self.data.append(&mut header);
        extend_bytes(&mut self.data, bytes);
        Ok(())
    }

    /// Raw bytes are appended with no header.
    pub fn serialize_bytes(&mut self, value: &[u8]) -> (r: Result<(), Error>)
        ensures
            r is Ok,
            final(self)@ == old(self)@ + value@,
            final(self).spec_is_struct() == old(self).spec_is_struct(),
    {
        extend_bytes(&mut self.data, value);
        Ok(())
    }

    /// A unit value has no bytes at all.
    pub fn serialize_unit(&mut self) -> (r: Result<(), Error>)
        ensures
            r is Ok,
            final(self)@ == old(self)@,
            final(self).spec_is_struct() == old(self).spec_is_struct(),
    {
        Ok(())
    }

    /// A unit variant of a union is its 4-byte little-endian tag alone.
    pub fn serialize_unit_variant(&mut self, variant_index: u32) -> (r: Result<(), Error>)
        ensures
            r is Ok,
            final(self)@ == old(self)@ + spec_u32_to_le_bytes(variant_index),
            final(self).spec_is_struct() == old(self).spec_is_struct(),
    {
        self.serialize_u32(variant_index)
    }
}

/// Computes the total size of the table that `parts` would assemble into,
/// refusing one that does not fit the 4-byte size word.
fn table_total_checked(parts: &Vec<Vec<u8>>) -> (r: Option<u32>)
    ensures
        match r {
            Some(t) => t == table_total(views(parts@)) && table_total(views(parts@)) <= u32::MAX,
            None => table_total(views(parts@)) > u32::MAX,
        },
{
    let ghost vs = views(parts@);
    let n = parts.len();
    if n > 0x3fff_fffeusize {
        return None;
    }
    let mut sum: u64 = (4 * (n + 1)) as u64;
    let mut i: usize = 0;
    while i < n
        invariant
            i <= n == parts@.len(),
            vs == views(parts@),
            4 * (n + 1) <= u32::MAX,
            sum == 4 * (n + 1) + sum_len(vs.take(i as int)),
            sum <= u32::MAX,
        decreases n - i,
    {
        proof {
            lemma_take_snoc(vs, i as int);
            lemma_sum_take_le(vs, i + 1);
            assert(vs[i as int] == parts@[i as int]@);
        }
        let len = parts[i].len() as u64;
        if len > 0xffff_ffffu64 {
            proof {
                lemma_take_full(vs);
            }
            return None;
        }
        sum = sum + len;
        if sum > 0xffff_ffffu64 {
            proof {
                lemma_take_full(vs);
            }
            return None;
        }
        i = i + 1;
    }
    proof {
        lemma_take_full(vs);
    }
    Some(sum as u32)
}

/// Collects the encoded elements of a variable-length sequence, to be
/// assembled as a fixvec.
pub struct FixVec {
    parts: Vec<Vec<u8>>,
}

impl FixVec {
    /// The encoded elements gathered so far.
    pub closed spec fn parts_view(&self) -> Seq<Seq<u8>> {
        views(self.parts@)
    }

    /// Creates an empty collector.
    pub fn new() -> (r: Self)
        ensures
            r.parts_view() == Seq::<Seq<u8>>::empty(),
    {
        let r = FixVec { parts: Vec::new() };
        proof {
            assert(r.parts_view() =~= Seq::<Seq<u8>>::empty());
        }
        r
    }

    /// Adds the encoded bytes of the next element.
    pub fn serialize_element(&mut self, encoded: Vec<u8>) -> (r: Result<(), Error>)
        ensures
            r is Ok,
            final(self).parts_view() == old(self).parts_view().push(encoded@),
    {
        let ghost e = encoded@;
        self.parts.push(encoded);
        proof {
            assert(self.parts_view() =~= old(self).parts_view().push(e));
        }
        Ok(())
    }

    /// Assembles the fixvec onto the serializer. Fails with `AssembleFixvec`
    /// when the elements are not of one common nonzero size, and with
    /// `Overflow` when the element count does not fit the count word.
    pub fn end(self, ser: &mut MoleculeSerializer) -> (r: Result<(), Error>)
        ensures
            match r {
                Ok(()) => fixvec_assemblable(self.parts_view()) && self.parts_view().len()
                    <= u32::MAX && final(ser)@ == old(ser)@ + spec_assemble_fixvec(
                    self.parts_view(),
                ),
                Err(e) => final(ser)@ == old(ser)@ && (e == Error::AssembleFixvec
                    ==> !fixvec_assemblable(self.parts_view())) && (e == Error::Overflow ==> self
                    .parts_view().len() > u32::MAX) && (e == Error::AssembleFixvec || e
                    == Error::Overflow),
            },
            final(ser).spec_is_struct() == old(ser).spec_is_struct(),
    {
        if self.parts.len() as u64 > 0xffff_ffffu64 {
            return Err(Error::Overflow);
        }
        let data = match assemble_fixvec(&self.parts) {
            Ok(d) => d,
            Err(e) => {
                return Err(e);
            },
        };
        ser.extend(data.as_slice());
        Ok(())
    }
}

/// Collects the encoded elements of a fixed-size array, which concatenate
/// with no header.
pub struct Tuple {
    data: Vec<u8>,
}

impl Tuple {
    /// The bytes gathered so far.
    pub closed spec fn data_view(&self) -> Seq<u8> {
        self.data@
    }

    /// Creates an empty collector.
    pub fn new() -> (r: Self)
        ensures
            r.data_view() == Seq::<u8>::empty(),
    {
        Tuple { data: Vec::new() }
    }

    /// Appends the encoded bytes of the next element.
    pub fn serialize_element(&mut self, encoded: Vec<u8>) -> (r: Result<(), Error>)
        ensures
            r is Ok,
            final(self).data_view() == old(self).data_view() + encoded@,
    {
        extend_bytes(&mut self.data, encoded.as_slice());
        Ok(())
    }

    /// Appends the concatenation onto the serializer.
    pub fn end(self, ser: &mut MoleculeSerializer) -> (r: Result<(), Error>)
        ensures
            r is Ok,
            final(ser)@ == old(ser)@ + self.data_view(),
            final(ser).spec_is_struct() == old(ser).spec_is_struct(),
    {
        ser.extend(self.data.as_slice());
        Ok(())
    }
}

/// Collects the encoded fields of a record, to be assembled as a Molecule
/// table in table mode or as a bare struct in struct mode.
pub struct Table {
    parts: Vec<Vec<u8>>,
    count: usize,
    is_struct: bool,
}

impl Table {
    /// The encoded fields gathered so far.
    pub closed spec fn parts_view(&self) -> Seq<Seq<u8>> {
        views(self.parts@)
    }

    /// The declared field count.
    pub closed spec fn spec_count(&self) -> int {
        self.count as int
    }

    /// Whether the record maps to a Molecule struct.
    pub closed spec fn spec_is_struct(&self) -> bool {
        self.is_struct
    }

    /// Creates a collector for a record of `count` declared fields.
    pub fn new(count: usize, is_struct: bool) -> (r: Self)
        ensures
            r.parts_view() == Seq::<Seq<u8>>::empty(),
            r.spec_count() == count,
            r.spec_is_struct() == is_struct,
    {
        let r = Table { parts: Vec::new(), count, is_struct };
        proof {
            assert(r.parts_view() =~= Seq::<Seq<u8>>::empty());
        }
        r
    }

    /// Adds the encoded bytes of the next field.
    pub fn serialize_field(&mut self, encoded: Vec<u8>) -> (r: Result<(), Error>)
        ensures
            r is Ok,
            final(self).parts_view() == old(self).parts_view().push(encoded@),
            final(self).spec_count() == old(self).spec_count(),
            final(self).spec_is_struct() == old(self).spec_is_struct(),
    {
        let ghost e = encoded@;
        self.parts.push(encoded);
        proof {
            assert(self.parts_view() =~= old(self).parts_view().push(e));
        }
        Ok(())
    }

    /// Assembles the record onto the serializer: a bare concatenation in
    /// struct mode, a table otherwise. Fails with `InvalidTableCount` when
    /// the observed field count differs from the declared one, and with
    /// `Overflow` when a table's total size does not fit its size word.
    pub fn end(self, ser: &mut MoleculeSerializer) -> (r: Result<(), Error>)
        ensures
            match r {
                Ok(()) => self.parts_view().len() == self.spec_count() && if self.spec_is_struct() {
                    final(ser)@ == old(ser)@ + spec_concat(self.parts_view())
                } else {
                    table_total(self.parts_view()) <= u32::MAX && final(ser)@ == old(ser)@
                        + spec_assemble_table(self.parts_view())
                },
                Err(e) => final(ser)@ == old(ser)@ && (e == Error::InvalidTableCount ==> self
                    .parts_view().len() != self.spec_count()) && (e == Error::Overflow
                    ==> !self.spec_is_struct() && table_total(self.parts_view()) > u32::MAX) && (e
                    == Error::InvalidTableCount || e == Error::Overflow),
            },
            final(ser).spec_is_struct() == old(ser).spec_is_struct(),
    {
        if self.parts.len() != self.count {
            return Err(Error::InvalidTableCount);
        }
        if self.is_struct {
            let data = assemble_struct(self.parts);
            ser.extend(data.as_slice());
            Ok(())
        } else {
            match table_total_checked(&self.parts) {
                Some(_) => {
                    let data = assemble_table(self.parts.as_slice());
                    ser.extend(data.as_slice());
                    Ok(())
                },
                None => Err(Error::Overflow),
            }
        }
    }
}

/// Collects the encoded entries of a map: each entry is a two-field table
/// of key and value, and the entries are wrapped in one outer table.
pub struct MapBuilder {
    parts: Vec<Vec<u8>>,
    temp_key: Vec<u8>,
}

impl MapBuilder {
    /// The encoded entries gathered so far.
    pub closed spec fn parts_view(&self) -> Seq<Seq<u8>> {
        views(self.parts@)
    }

    /// The encoded key awaiting its value.
    pub closed spec fn key_view(&self) -> Seq<u8> {
        self.temp_key@
    }

    /// Creates an empty collector.
    pub fn new() -> (r: Self)
        ensures
            r.parts_view() == Seq::<Seq<u8>>::empty(),
            r.key_view() == Seq::<u8>::empty(),
    {
        let r = MapBuilder { parts: Vec::new(), temp_key: Vec::new() };
        proof {
            assert(r.parts_view() =~= Seq::<Seq<u8>>::empty());
        }
        r
    }

    /// Holds the encoded bytes of an entry's key until its value arrives.
    pub fn serialize_key(&mut self, encoded: Vec<u8>) -> (r: Result<(), Error>)
        ensures
            r is Ok,
            final(self).key_view() == encoded@,
            final(self).parts_view() == old(self).parts_view(),
    {
        self.temp_key = encoded;
        Ok(())
    }

    /// Completes an entry: the held key and this value form a two-field
    /// table. Fails with `Overflow` when that table's total size does not
    /// fit its size word.
    pub fn serialize_value(&mut self, encoded: Vec<u8>) -> (r: Result<(), Error>)
        ensures
            match r {
                Ok(()) => table_total(seq![old(self).key_view(), encoded@]) <= u32::MAX
                    && final(self).parts_view() == old(self).parts_view().push(
                    spec_assemble_table(seq![old(self).key_view(), encoded@]),
                ),
                Err(e) => e == Error::Overflow && table_total(seq![old(self).key_view(), encoded@])
                    > u32::MAX && final(self).parts_view() == old(self).parts_view(),
            },
            final(self).key_view() == old(self).key_view(),
    {
        let mut pair: Vec<Vec<u8>> = Vec::new();
        let key_copy = crate::numeric::copy_range(self.temp_key.as_slice(), 0, self.temp_key.len());
        proof {
            assert(key_copy@ =~= self.temp_key@);
        }
        pair.push(key_copy);
        pair.push(encoded);
        proof {
            assert(views(pair@) =~= seq![old(self).key_view(), views(pair@)[1]]);
        }
        match table_total_checked(&pair) {
            Some(_) => {
                let entry = assemble_table(pair.as_slice());
                let ghost e = entry@;
                self.parts.push(entry);
                proof {
                    assert(self.parts_view() =~= old(self).parts_view().push(e));
                }
                Ok(())
            },
            None => Err(Error::Overflow),
        }
    }

    /// Assembles the outer table of all entries onto the serializer. Fails
    /// with `Overflow` when its total size does not fit the size word.
    pub fn end(self, ser: &mut MoleculeSerializer) -> (r: Result<(), Error>)
        ensures
            match r {
                Ok(()) => table_total(self.parts_view()) <= u32::MAX && final(ser)@ == old(ser)@
                    + spec_assemble_table(self.parts_view()),
                Err(e) => e == Error::Overflow && table_total(self.parts_view()) > u32::MAX
                    && final(ser)@ == old(ser)@,
            },
            final(ser).spec_is_struct() == old(ser).spec_is_struct(),
    {
        match table_total_checked(&self.parts) {
            Some(_) => {
                let data = assemble_table(self.parts.as_slice());
                ser.extend(data.as_slice());
                Ok(())
            },
            None => Err(Error::Overflow),
        }
    }
}

} // verus!
