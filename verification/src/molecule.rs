//! Wire primitives of the Molecule format: assembly and disassembly of the
//! composite shapes (`struct`, `fixvec`, `dynvec`, `table`) and the 4-byte
//! little-endian number packing they share.
//!
//! A `table` (and a `dynvec`, whose layout is identical) is a 4-byte
//! little-endian total size, one 4-byte little-endian absolute offset per
//! field, and the field payloads concatenated. A `fixvec` is a 4-byte
//! little-endian item count followed by that many equal-sized items. A
//! `struct` is the bare concatenation of its fixed-size fields.

use vstd::prelude::*;
use vstd::bytes::{
    spec_u32_to_le_bytes, spec_u32_from_le_bytes, lemma_auto_spec_u32_to_from_le_bytes,
    u32_from_le_bytes, u32_to_le_bytes,
};
use vstd::slice::slice_subrange;
use vstd::arithmetic::div_mod::lemma_fundamental_div_mod;
use vstd::arithmetic::div_mod::{lemma_div_multiples_vanish, lemma_mod_multiples_basic};
use vstd::arithmetic::mul::{
    lemma_mul_basics_4, lemma_mul_inequality, lemma_mul_is_commutative,
    lemma_mul_is_distributive_add_other_way, lemma_mul_nonnegative, lemma_mul_strictly_positive,
};
use crate::error::Error;
use crate::numeric::{extend_bytes, copy_range};

verus! {

/// The views of a sequence of byte vectors.
pub open spec fn views(parts: Seq<Vec<u8>>) -> Seq<Seq<u8>> {
    parts.map_values(|p: Vec<u8>| p@)
}

/// A `Result` of byte vectors abstracted to its views.
pub open spec fn res_views(r: Result<Vec<Vec<u8>>, Error>) -> Result<Seq<Seq<u8>>, Error> {
    match r {
        Ok(v) => Ok(views(v@)),
        Err(e) => Err(e),
    }
}

/// The concatenation of a sequence of byte strings.
pub open spec fn spec_concat(parts: Seq<Seq<u8>>) -> Seq<u8>
    decreases parts.len(),
{
    if parts.len() == 0 {
        Seq::empty()
    } else {
        spec_concat(parts.drop_last()) + parts.last()
    }
}

/// The total byte length of a sequence of byte strings.
pub open spec fn sum_len(parts: Seq<Seq<u8>>) -> nat
    decreases parts.len(),
{
    if parts.len() == 0 {
        0
    } else {
        sum_len(parts.drop_last()) + parts.last().len()
    }
}

/// The absolute offset of part `i` within the table assembled from `parts`:
/// the header size plus the lengths of the parts before it.
pub open spec fn table_offset(parts: Seq<Seq<u8>>, i: int) -> int {
    4 * (parts.len() + 1) + sum_len(parts.take(i)) as int
}

/// The total size of the table assembled from `parts`.
pub open spec fn table_total(parts: Seq<Seq<u8>>) -> int {
    4 * (parts.len() + 1) + sum_len(parts) as int
}

/// The per-part offset words of a table header, each as 4 bytes.
pub open spec fn table_offsets_seq(parts: Seq<Seq<u8>>) -> Seq<Seq<u8>> {
    Seq::new(parts.len(), |i: int| spec_u32_to_le_bytes(table_offset(parts, i) as u32))
}

/// The bytes of the table (or dynvec) assembled from `parts`.
pub open spec fn spec_assemble_table(parts: Seq<Seq<u8>>) -> Seq<u8> {
    spec_u32_to_le_bytes(table_total(parts) as u32) + spec_concat(table_offsets_seq(parts))
        + spec_concat(parts)
}

/// Whether `parts` can be assembled into a fixvec: either no parts at all,
/// or every part of one common nonzero length.
pub open spec fn fixvec_assemblable(parts: Seq<Seq<u8>>) -> bool {
    parts.len() == 0 || (parts[0].len() > 0 && forall|i: int|
        0 <= i < parts.len() ==> #[trigger] parts[i].len() == parts[0].len())
}

/// The bytes of the fixvec assembled from `parts`.
pub open spec fn spec_assemble_fixvec(parts: Seq<Seq<u8>>) -> Seq<u8> {
    spec_u32_to_le_bytes(parts.len() as u32) + spec_concat(parts)
}

/// The 32-bit little-endian number at `offset`, if the buffer is long enough.
pub open spec fn spec_unpack_number(data: Seq<u8>, offset: int) -> Option<u32> {
    if 0 <= offset && offset + 4 <= data.len() {
        Some(spec_u32_from_le_bytes(data.subrange(offset, offset + 4)))
    } else {
        None
    }
}

// ---------------------------------------------------------------------------
// Facts about concatenation.
// ---------------------------------------------------------------------------

/// The concatenation of a sequence of parts is as long as their lengths sum.
pub proof fn lemma_concat_len(parts: Seq<Seq<u8>>)
    ensures
        spec_concat(parts).len() == sum_len(parts),
    decreases parts.len(),
{
    if parts.len() > 0 {
        lemma_concat_len(parts.drop_last());
    }
}

/// Taking one more part appends exactly that part to the concatenation.
pub proof fn lemma_take_snoc(parts: Seq<Seq<u8>>, i: int)
    requires
        0 <= i < parts.len(),
    ensures
        spec_concat(parts.take(i + 1)) == spec_concat(parts.take(i)) + parts[i],
        sum_len(parts.take(i + 1)) == sum_len(parts.take(i)) + parts[i].len(),
{
    assert(parts.take(i + 1).drop_last() =~= parts.take(i));
    assert(parts.take(i + 1).last() == parts[i]);
}

/// Taking all parts is the same as the whole sequence.
pub proof fn lemma_take_full(parts: Seq<Seq<u8>>)
    ensures
        spec_concat(parts.take(parts.len() as int)) == spec_concat(parts),
        sum_len(parts.take(parts.len() as int)) == sum_len(parts),
{
    assert(parts.take(parts.len() as int) =~= parts);
}

/// A prefix of the parts never sums longer than all of them.
pub proof fn lemma_sum_take_le(parts: Seq<Seq<u8>>, i: int)
    requires
        0 <= i <= parts.len(),
    ensures
        sum_len(parts.take(i)) <= sum_len(parts),
    decreases parts.len() - i,
{
    if i == parts.len() {
        lemma_take_full(parts);
    } else {
        lemma_take_snoc(parts, i);
        lemma_sum_take_le(parts, i + 1);
    }
}

/// Each part is found inside the concatenation at the sum of the lengths of
/// the parts before it.
pub proof fn lemma_concat_part(parts: Seq<Seq<u8>>, i: int)
    requires
        0 <= i < parts.len(),
    ensures
        sum_len(parts.take(i)) + parts[i].len() <= spec_concat(parts).len(),
        spec_concat(parts).subrange(
            sum_len(parts.take(i)) as int,
            sum_len(parts.take(i)) + parts[i].len() as int,
        ) == parts[i],
    decreases parts.len(),
{
    lemma_concat_len(parts);
    lemma_take_snoc(parts, i);
    lemma_sum_take_le(parts, i + 1);
    let lo = sum_len(parts.take(i)) as int;
    let hi = sum_len(parts.take(i)) + parts[i].len() as int;
    if i == parts.len() - 1 {
        assert(parts.take(i) =~= parts.drop_last());
        lemma_concat_len(parts.drop_last());
        assert(spec_concat(parts).subrange(lo, hi) =~= parts[i]);
    } else {
        lemma_concat_part(parts.drop_last(), i);
        assert(parts.drop_last().take(i) =~= parts.take(i));
        assert(parts.drop_last()[i] == parts[i]);
        lemma_concat_len(parts.drop_last());
        lemma_sum_take_le(parts.drop_last(), i + 1);
        assert(parts.drop_last().take(i + 1) =~= parts.take(i + 1));
        assert(spec_concat(parts).subrange(lo, hi) =~= spec_concat(parts.drop_last()).subrange(
            lo,
            hi,
        ));
    }
}

// ---------------------------------------------------------------------------
// Number packing.
// ---------------------------------------------------------------------------

/// Reads the 32-bit little-endian number stored at `offset`.
pub fn unpack_number(data: &[u8], offset: usize) -> (r: Result<usize, Error>)
    requires
        offset + 4 <= usize::MAX,
    ensures
        match r {
            Ok(v) => spec_unpack_number(data@, offset as int) == Some(v as u32) && v <= u32::MAX
                && v == spec_u32_from_le_bytes(data@.subrange(offset as int, offset + 4)),
            Err(e) => spec_unpack_number(data@, offset as int) is None && e
                == Error::LengthNotEnough,
        },
{
    if data.len() < 4 + offset {
        Err(Error::LengthNotEnough)
    } else {
        let s = slice_subrange(data, offset, offset + 4);
        let v = u32_from_le_bytes(s);
        Ok(v as usize)
    }
}

// ---------------------------------------------------------------------------
// Assembly.
// ---------------------------------------------------------------------------

/// Assembles a Molecule struct: the bare concatenation of its parts.
pub fn assemble_struct(parts: Vec<Vec<u8>>) -> (r: Vec<u8>)
    ensures
        r@ == spec_concat(views(parts@)),
{
    let ghost vs = views(parts@);
    let mut result: Vec<u8> = Vec::new();
    let mut i: usize = 0;
    while i < parts.len()
        invariant
            i <= parts@.len(),
            vs == views(parts@),
            result@ == spec_concat(vs.take(i as int)),
        decreases parts@.len() - i,
    {
        extend_bytes(&mut result, parts[i].as_slice());
        proof {
            lemma_take_snoc(vs, i as int);
        }
        i = i + 1;
    }
    proof {
        lemma_take_full(vs);
    }
    result
}

/// Assembles a Molecule fixvec: a 4-byte little-endian item count followed
/// by the items, which must all share one nonzero size.
pub fn assemble_fixvec(parts: &Vec<Vec<u8>>) -> (r: Result<Vec<u8>, Error>)
    requires
        parts@.len() <= u32::MAX,
    ensures
        match r {
            Ok(out) => fixvec_assemblable(views(parts@)) && out@ == spec_assemble_fixvec(
                views(parts@),
            ),
            Err(e) => !fixvec_assemblable(views(parts@)) && e == Error::AssembleFixvec,
        },
{
    let ghost vs = views(parts@);
    if parts.len() > 0 {
        let len0 = parts[0].len();
        let mut i: usize = 1;
        while i < parts.len()
            invariant
                1 <= i <= parts@.len(),
                vs == views(parts@),
                len0 == vs[0].len(),
                forall|j: int| 0 <= j < i ==> #[trigger] vs[j].len() == len0,
            decreases parts@.len() - i,
        {
            if parts[i].len() != len0 {
                proof {
                    assert(vs[i as int] == parts@[i as int]@);
                    assert(!fixvec_assemblable(vs));
                }
                return Err(Error::AssembleFixvec);
            }
            i = i + 1;
        }
        if len0 == 0 {
            proof {
                assert(vs[0].len() == 0);
                assert(!fixvec_assemblable(vs));
            }
            return Err(Error::AssembleFixvec);
        }
        proof {
            assert(fixvec_assemblable(vs));
        }
    }
    let count: u32 = parts.len() as u32;
    let mut result = u32_to_le_bytes(count);
    let mut i: usize = 0;
    while i < parts.len()
        invariant
            i <= parts@.len(),
            vs == views(parts@),
            result@ == spec_u32_to_le_bytes(parts@.len() as u32) + spec_concat(vs.take(i as int)),
        decreases parts@.len() - i,
    {
        extend_bytes(&mut result, parts[i].as_slice());
        proof {
            lemma_take_snoc(vs, i as int);
        }
        i = i + 1;
    }
    proof {
        lemma_take_full(vs);
    }
    Ok(result)
}

/// Assembles a Molecule table (or dynvec): a 4-byte little-endian total
/// size, one absolute 4-byte little-endian offset per part, then the part
/// payloads concatenated.
pub fn assemble_table(parts: &[Vec<u8>]) -> (r: Vec<u8>)
    requires
        table_total(views(parts@)) <= u32::MAX,
    ensures
        r@ == spec_assemble_table(views(parts@)),
{
    let ghost vs = views(parts@);
    let n = parts.len();
    // Total size of the assembled table.
    let mut sum: usize = 0;
    let mut i: usize = 0;
    while i < n
        invariant
            i <= n == parts@.len(),
            vs == views(parts@),
            sum == sum_len(vs.take(i as int)),
            table_total(vs) <= u32::MAX,
        decreases n - i,
    {
        proof {
            lemma_take_snoc(vs, i as int);
            lemma_sum_take_le(vs, i + 1);
        }
        sum = sum + parts[i].len();
        i = i + 1;
    }
    proof {
        lemma_take_full(vs);
    }
    let total: usize = 4 * (n + 1) + sum;
    let mut result = u32_to_le_bytes(total as u32);
    let ghost offsets = table_offsets_seq(vs);
    // The offset words.
    let mut offset: usize = 4 * (n + 1);
    let mut i: usize = 0;
    while i < n
        invariant
            i <= n == parts@.len(),
            vs == views(parts@),
            table_total(vs) <= u32::MAX,
            offsets == table_offsets_seq(vs),
            offset == table_offset(vs, i as int),
            result@ == spec_u32_to_le_bytes(table_total(vs) as u32) + spec_concat(
                offsets.take(i as int),
            ),
        decreases n - i,
    {
        proof {
            lemma_take_snoc(vs, i as int);
            lemma_sum_take_le(vs, i + 1);
            lemma_take_snoc(offsets, i as int);
        }
        let mut word = u32_to_le_bytes(offset as u32);
        extend_bytes(&mut result, word.as_slice());
        offset = offset + parts[i].len();
        i = i + 1;
    }
    proof {
        lemma_take_full(offsets);
    }
    // The payloads.
    let mut i: usize = 0;
    while i < n
        invariant
            i <= n == parts@.len(),
            vs == views(parts@),
            offsets == table_offsets_seq(vs),
            result@ == spec_u32_to_le_bytes(table_total(vs) as u32) + spec_concat(offsets)
                + spec_concat(vs.take(i as int)),
        decreases n - i,
    {
        extend_bytes(&mut result, parts[i].as_slice());
        proof {
            lemma_take_snoc(vs, i as int);
        }
        i = i + 1;
    }
    proof {
        lemma_take_full(vs);
    }
    result
}

// ---------------------------------------------------------------------------
// Disassembly.
// ---------------------------------------------------------------------------

/// The result of reading `data` as a fixvec: the item count word followed by
/// that many items whose common size divides the remaining length.
pub open spec fn spec_disassemble_fixvec(data: Seq<u8>) -> Result<Seq<Seq<u8>>, Error> {
    match spec_unpack_number(data, 0) {
        None => Err(Error::LengthNotEnough),
        Some(count32) => {
            let count = count32 as int;
            if count == 0 {
                Ok(Seq::empty())
            } else {
                let rem = data.len() - 4;
                if rem == 0 {
                    Err(Error::InvalidFixvec)
                } else if rem % count != 0 {
                    Err(Error::InvalidFixvec)
                } else {
                    let size = rem / count;
                    Ok(
                        Seq::new(
                            count as nat,
                            |j: int| data.subrange(4 + j * size, 4 + (j + 1) * size),
                        ),
                    )
                }
            }
        },
    }
}

/// The remaining scan of a table body: offsets `i..count` are read from the
/// header, each must be non-decreasing and within bounds, and the final part
/// extends to the end of the buffer.
pub open spec fn spec_table_rest(data: Seq<u8>, count: int, i: int, last: int) -> Result<
    Seq<Seq<u8>>,
    Error,
>
    decreases count - i,
{
    if i >= count {
        Ok(seq![data.subrange(last, data.len() as int)])
    } else {
        match spec_unpack_number(data, 4 * (i + 1)) {
            None => Err(Error::LengthNotEnough),
            Some(off32) => {
                let off = off32 as int;
                if last > off {
                    Err(Error::InvalidTable)
                } else if off > data.len() {
                    Err(Error::InvalidTable)
                } else {
                    match spec_table_rest(data, count, i + 1, off) {
                        Ok(rest) => Ok(seq![data.subrange(last, off)] + rest),
                        Err(e) => Err(e),
                    }
                }
            },
        }
    }
}

/// The result of reading `data` as a table (or dynvec): the total-size word
/// must equal the buffer length, the first offset determines the field
/// count, and the fields lie between consecutive offsets.
pub open spec fn spec_disassemble_table(data: Seq<u8>) -> Result<Seq<Seq<u8>>, Error> {
    match spec_unpack_number(data, 0) {
        None => Err(Error::LengthNotEnough),
        Some(total32) => {
            let total = total32 as int;
            if data.len() != total {
                Err(Error::InvalidTableLength)
            } else if total == 4 {
                Ok(Seq::empty())
            } else if total < 8 {
                Err(Error::InvalidTableLength)
            } else {
                match spec_unpack_number(data, 4) {
                    None => Err(Error::LengthNotEnough),
                    Some(first32) => {
                        let first = first32 as int;
                        if first % 4 != 0 || first < 8 {
                            Err(Error::InvalidTableHeader)
                        } else if total < first {
                            Err(Error::InvalidTableHeader)
                        } else {
                            spec_table_rest(data, first / 4 - 1, 1, first)
                        }
                    },
                }
            }
        },
    }
}

/// Accumulated table parts followed by the still-unscanned rest.
pub open spec fn compose_parts(pre: Seq<Seq<u8>>, rest: Result<Seq<Seq<u8>>, Error>) -> Result<
    Seq<Seq<u8>>,
    Error,
> {
    match rest {
        Ok(r) => Ok(pre + r),
        Err(e) => Err(e),
    }
}

/// Splits a fixvec buffer into its equal-sized items.
pub fn disassemble_fixvec(data: &[u8]) -> (r: Result<Vec<Vec<u8>>, Error>)
    ensures
        res_views(r) == spec_disassemble_fixvec(data@),
{
    let count = match unpack_number(data, 0) {
        Ok(c) => c,
        Err(e) => {
            return Err(e);
        },
    };
    if count == 0 {
        proof {
            assert(views(Seq::<Vec<u8>>::empty()) =~= Seq::<Seq<u8>>::empty());
        }
        return Ok(Vec::new());
    }
    let remaining = data.len() - 4;
    if remaining == 0 {
        return Err(Error::InvalidFixvec);
    }
    if remaining % count != 0 {
        return Err(Error::InvalidFixvec);
    }
    let item_size = remaining / count;
    proof {
        lemma_fundamental_div_mod(remaining as int, count as int);
    }
    let ghost target = Seq::new(
        count as nat,
        |j: int| data@.subrange(4 + j * (item_size as int), 4 + (j + 1) * (item_size as int)),
    );
    let mut result: Vec<Vec<u8>> = Vec::new();
    let mut i: usize = 0;
    while i < count
        invariant
            i <= count,
            count > 0,
            count * item_size == remaining == data@.len() - 4,
            remaining > 0,
            remaining <= usize::MAX - 4,
            target == Seq::new(
                count as nat,
                |j: int|
                    data@.subrange(4 + j * (item_size as int), 4 + (j + 1) * (item_size as int)),
            ),
            result@.len() == i,
            forall|j: int| 0 <= j < i ==> #[trigger] result@[j]@ == target[j],
        decreases count - i,
    {
        proof {
            lemma_mul_inequality(i as int + 1, count as int, item_size as int);
            lemma_mul_is_distributive_add_other_way(item_size as int, i as int, 1);
            lemma_mul_nonnegative(i as int, item_size as int);
        }
        let start = 4 + i * item_size;
        let end = 4 + (i + 1) * item_size;
        let part = copy_range(data, start, end);
        result.push(part);
        i = i + 1;
    }
    proof {
        assert(views(result@) =~= target);
    }
    Ok(result)
}

/// Splits a table (or dynvec) buffer into its fields, validating the header.
pub fn disassemble_table(data: &[u8]) -> (r: Result<Vec<Vec<u8>>, Error>)
    ensures
        res_views(r) == spec_disassemble_table(data@),
{
    let total_size = match unpack_number(data, 0) {
        Ok(t) => t,
        Err(e) => {
            return Err(e);
        },
    };
    if data.len() != total_size {
        return Err(Error::InvalidTableLength);
    }
    if total_size == 4 {
        proof {
            assert(views(Seq::<Vec<u8>>::empty()) =~= Seq::<Seq<u8>>::empty());
        }
        return Ok(Vec::new());
    }
    if total_size < 8 {
        return Err(Error::InvalidTableLength);
    }
    let first_offset = match unpack_number(data, 4) {
        Ok(f) => f,
        Err(e) => {
            return Err(e);
        },
    };
    if first_offset % 4 != 0 || first_offset < 8 {
        return Err(Error::InvalidTableHeader);
    }
    if total_size < first_offset {
        return Err(Error::InvalidTableHeader);
    }
    let count = first_offset / 4 - 1;
    proof {
        lemma_fundamental_div_mod(first_offset as int, 4);
    }
    let mut result: Vec<Vec<u8>> = Vec::new();
    let mut last: usize = first_offset;
    let mut i: usize = 1;
    proof {
        let rest = spec_table_rest(data@, count as int, 1, first_offset as int);
        if let Ok(rs) = rest {
            assert(Seq::<Seq<u8>>::empty() + rs =~= rs);
        }
        assert(views(result@) =~= Seq::<Seq<u8>>::empty());
    }
    while i < count
        invariant
            1 <= i <= count,
            count * 4 == first_offset - 4,
            8 <= first_offset <= total_size == data@.len(),
            last <= data@.len(),
            spec_disassemble_table(data@) == compose_parts(
                views(result@),
                spec_table_rest(data@, count as int, i as int, last as int),
            ),
        decreases count - i,
    {
        proof {
            lemma_mul_inequality(i as int + 1, count as int, 4);
        }
        let offset = match unpack_number(data, 4 * (i + 1)) {
            Ok(o) => o,
            Err(e) => {
                return Err(e);
            },
        };
        if last > offset {
            return Err(Error::InvalidTable);
        }
        if offset > data.len() {
            return Err(Error::InvalidTable);
        }
        let part = copy_range(data, last, offset);
        proof {
            let ghost pre = views(result@);
            let rest2 = spec_table_rest(data@, count as int, i + 1, offset as int);
            if let Ok(rs2) = rest2 {
                assert(pre + (seq![data@.subrange(last as int, offset as int)] + rs2) =~= (pre
                    + seq![part@]) + rs2);
            }
            assert(views(result@.push(part)) =~= views(result@) + seq![part@]);
        }
        result.push(part);
        last = offset;
        i = i + 1;
    }
    let tail = copy_range(data, last, data.len());
    proof {
        assert(spec_table_rest(data@, count as int, i as int, last as int) == Ok::<
            Seq<Seq<u8>>,
            Error,
        >(seq![data@.subrange(last as int, data@.len() as int)]));
        assert(views(result@.push(tail)) =~= views(result@) + seq![tail@]);
        assert(views(result@) + seq![tail@] =~= views(result@) + seq![
            data@.subrange(last as int, data@.len() as int),
        ]);
    }
    result.push(tail);
    Ok(result)
}

// ---------------------------------------------------------------------------
// Laws of the wire format.
// ---------------------------------------------------------------------------

/// The offset word for field `i` of a table buffer: the 4-byte number that
/// follows the total-size word and `i` earlier offset words.
pub open spec fn table_word(data: Seq<u8>, i: int) -> Option<u32> {
    spec_unpack_number(data, 4 * (i + 1))
}

/// The sum of `i` uniform part widths is `i` times the width.
pub proof fn lemma_sum_uniform(parts: Seq<Seq<u8>>, w: nat, i: int)
    requires
        forall|j: int| 0 <= j < parts.len() ==> #[trigger] parts[j].len() == w,
        0 <= i <= parts.len(),
    ensures
        sum_len(parts.take(i)) == i * w,
    decreases i,
{
    if i == 0 {
        assert(parts.take(0) =~= Seq::<Seq<u8>>::empty());
    } else {
        lemma_sum_uniform(parts, w, i - 1);
        lemma_take_snoc(parts, i - 1);
        lemma_mul_is_distributive_add_other_way(w as int, i - 1, 1);
        lemma_mul_basics_4(w as int);
    }
}

/// A sequence of parts that are adjacent equal-sized subranges of a buffer
/// concatenates to the covered range of the buffer itself.
pub proof fn lemma_uniform_subranges_concat(data: Seq<u8>, a: int, size: int, parts: Seq<Seq<u8>>)
    requires
        0 <= a,
        0 <= size,
        a + parts.len() * size <= data.len(),
        forall|j: int|
            0 <= j < parts.len() ==> #[trigger] parts[j] == data.subrange(
                a + j * size,
                a + (j + 1) * size,
            ),
    ensures
        spec_concat(parts) == data.subrange(a, a + parts.len() * size),
    decreases parts.len(),
{
    let k = parts.len() as int;
    if k == 0 {
        assert(parts.len() * size == 0) by {
            lemma_mul_basics_4(size);
        }
        assert(data.subrange(a, a) =~= Seq::<u8>::empty());
        assert(spec_concat(parts) == Seq::<u8>::empty());
    } else {
        lemma_mul_is_distributive_add_other_way(size, k - 1, 1);
        lemma_mul_basics_4(size);
        lemma_mul_nonnegative(k - 1, size);
        lemma_uniform_subranges_concat(data, a, size, parts.drop_last());
        assert(spec_concat(parts) == spec_concat(parts.drop_last()) + parts[k - 1]);
        assert(parts[k - 1] == data.subrange(a + (k - 1) * size, a + k * size));
        assert(data.subrange(a, a + (k - 1) * size) + data.subrange(
            a + (k - 1) * size,
            a + k * size,
        ) =~= data.subrange(a, a + k * size));
    }
}

/// Prepending one part to a concatenation prepends its bytes.
pub proof fn lemma_concat_cons(x: Seq<u8>, rest: Seq<Seq<u8>>)
    ensures
        spec_concat(seq![x] + rest) == x + spec_concat(rest),
        sum_len(seq![x] + rest) == x.len() + sum_len(rest),
    decreases rest.len(),
{
    if rest.len() == 0 {
        assert(seq![x] + rest =~= seq![x]);
        assert(seq![x].drop_last() =~= Seq::<Seq<u8>>::empty());
        assert(spec_concat(Seq::<Seq<u8>>::empty()) == Seq::<u8>::empty());
        assert(sum_len(Seq::<Seq<u8>>::empty()) == 0);
        assert(spec_concat(seq![x]) == spec_concat(Seq::<Seq<u8>>::empty()) + x);
        assert(spec_concat(rest) == Seq::<u8>::empty());
        assert(x + Seq::<u8>::empty() =~= x);
        assert(Seq::<u8>::empty() + x =~= x);
    } else {
        lemma_concat_cons(x, rest.drop_last());
        let whole = seq![x] + rest;
        assert(whole.drop_last() =~= seq![x] + rest.drop_last());
        assert(whole.last() == rest.last());
        assert(spec_concat(whole) == spec_concat(seq![x] + rest.drop_last()) + rest.last());
        assert(sum_len(whole) == sum_len(seq![x] + rest.drop_last()) + rest.last().len());
        assert(spec_concat(rest) == spec_concat(rest.drop_last()) + rest.last());
        assert(sum_len(rest) == sum_len(rest.drop_last()) + rest.last().len());
        assert((x + spec_concat(rest.drop_last())) + rest.last() =~= x + (spec_concat(
            rest.drop_last(),
        ) + rest.last()));
    }
}

/// The layout of an assembled table at field `i`: the offset word for `i`
/// reads back field `i`'s absolute offset, and the bytes between that offset
/// and the next hold exactly part `i`.
pub proof fn lemma_table_layout_at(parts: Seq<Seq<u8>>, i: int)
    requires
        table_total(parts) <= u32::MAX,
        0 <= i < parts.len(),
    ensures
        table_word(spec_assemble_table(parts), i) == Some(table_offset(parts, i) as u32),
        table_offset(parts, i) + parts[i].len() <= table_total(parts),
        spec_assemble_table(parts).subrange(
            table_offset(parts, i),
            table_offset(parts, i) + parts[i].len() as int,
        ) == parts[i],
    decreases parts.len(),
{
    lemma_auto_spec_u32_to_from_le_bytes();
    let b = spec_assemble_table(parts);
    let n = parts.len() as int;
    let offs = table_offsets_seq(parts);
    assert forall|j: int| 0 <= j < n implies #[trigger] offs[j].len() == 4 by {
        assert(offs[j] == spec_u32_to_le_bytes(table_offset(parts, j) as u32));
    }
    lemma_table_len(parts);
    lemma_concat_len(offs);
    lemma_take_full(offs);
    lemma_sum_uniform(offs, 4, n);
    lemma_concat_len(parts);
    lemma_sum_take_le(parts, i);
    lemma_sum_take_le(parts, i + 1);
    lemma_take_snoc(parts, i);
    // The offset word.
    lemma_concat_part(offs, i);
    lemma_sum_uniform(offs, 4, i);
    assert(b.subrange(4 * (i + 1), 4 * (i + 1) + 4) =~= spec_concat(offs).subrange(
        4 * i,
        4 * i + 4,
    ));
    assert(b.subrange(4 * (i + 1), 4 * (i + 1) + 4) == spec_u32_to_le_bytes(
        table_offset(parts, i) as u32,
    ));
    // The payload bytes.
    lemma_concat_part(parts, i);
    assert(b.subrange(table_offset(parts, i), table_offset(parts, i) + parts[i].len() as int)
        =~= spec_concat(parts).subrange(
        sum_len(parts.take(i)) as int,
        sum_len(parts.take(i)) + parts[i].len() as int,
    ));
}

/// An assembled table is as long as its declared total, and its first word
/// reads that total back.
pub proof fn lemma_table_len(parts: Seq<Seq<u8>>)
    requires
        table_total(parts) <= u32::MAX,
    ensures
        spec_assemble_table(parts).len() == table_total(parts),
        spec_unpack_number(spec_assemble_table(parts), 0) == Some(table_total(parts) as u32),
{
    lemma_auto_spec_u32_to_from_le_bytes();
    let b = spec_assemble_table(parts);
    let n = parts.len() as int;
    let offs = table_offsets_seq(parts);
    assert forall|j: int| 0 <= j < n implies #[trigger] offs[j].len() == 4 by {
        assert(offs[j] == spec_u32_to_le_bytes(table_offset(parts, j) as u32));
    }
    lemma_concat_len(offs);
    lemma_take_full(offs);
    lemma_sum_uniform(offs, 4, n);
    lemma_concat_len(parts);
    assert(b.subrange(0, 4) =~= spec_u32_to_le_bytes(table_total(parts) as u32));
}

/// Header validity: the first word of an assembled table is its total byte
/// length; the offset words start at `4 * (field count + 1)`, a multiple of
/// four; they never decrease; and the last field extends exactly to the end
/// of the buffer.
pub proof fn lemma_table_header_validity(parts: Seq<Seq<u8>>)
    requires
        table_total(parts) <= u32::MAX,
    ensures
        spec_unpack_number(spec_assemble_table(parts), 0) == Some(
            spec_assemble_table(parts).len() as u32,
        ),
        forall|i: int|
            0 <= i < parts.len() ==> #[trigger] table_word(spec_assemble_table(parts), i) == Some(
                table_offset(parts, i) as u32,
            ),
        table_offset(parts, 0) == 4 * (parts.len() + 1),
        forall|i: int|
            0 <= i < parts.len() - 1 ==> #[trigger] table_offset(parts, i) <= table_offset(
                parts,
                i + 1,
            ),
        parts.len() > 0 ==> table_offset(parts, parts.len() - 1) + parts[parts.len() - 1].len()
            == spec_assemble_table(parts).len(),
{
    lemma_table_len(parts);
    assert(parts.take(0) =~= Seq::<Seq<u8>>::empty());
    assert forall|i: int| 0 <= i < parts.len() implies #[trigger] table_word(
        spec_assemble_table(parts),
        i,
    ) == Some(table_offset(parts, i) as u32) by {
        lemma_table_layout_at(parts, i);
    }
    assert forall|i: int| 0 <= i < parts.len() - 1 implies #[trigger] table_offset(parts, i)
        <= table_offset(parts, i + 1) by {
        lemma_take_snoc(parts, i);
    }
    if parts.len() > 0 {
        let n = parts.len() as int;
        lemma_take_snoc(parts, n - 1);
        lemma_take_full(parts);
    }
}

/// The scan of an assembled table from field `i - 1` onward returns exactly
/// the remaining parts.
proof fn lemma_table_scan(parts: Seq<Seq<u8>>, i: int)
    requires
        table_total(parts) <= u32::MAX,
        parts.len() >= 1,
        1 <= i <= parts.len(),
    ensures
        spec_table_rest(
            spec_assemble_table(parts),
            parts.len() as int,
            i,
            table_offset(parts, i - 1),
        ) == Ok::<Seq<Seq<u8>>, Error>(parts.skip(i - 1)),
    decreases parts.len() - i,
{
    let b = spec_assemble_table(parts);
    let n = parts.len() as int;
    lemma_table_len(parts);
    lemma_table_layout_at(parts, i - 1);
    lemma_take_snoc(parts, i - 1);
    lemma_sum_take_le(parts, i);
    if i == n {
        lemma_take_full(parts);
        assert(table_offset(parts, n - 1) + parts[n - 1].len() == table_total(parts));
        assert(b.subrange(table_offset(parts, n - 1), b.len() as int) == parts[n - 1]);
        assert(seq![parts[n - 1]] =~= parts.skip(n - 1));
    } else {
        lemma_table_layout_at(parts, i);
        // The word read at this step is field i's offset, which is in range
        // and not below the previous offset.
        assert(table_offset(parts, i) == table_offset(parts, i - 1) + parts[i - 1].len());
        lemma_sum_take_le(parts, i + 1);
        assert(table_offset(parts, i) <= table_total(parts));
        // The bytes between the offsets are exactly part i - 1.
        assert(b.subrange(table_offset(parts, i - 1), table_offset(parts, i)) == parts[i - 1]);
        lemma_table_scan(parts, i + 1);
        assert(seq![parts[i - 1]] + parts.skip(i) =~= parts.skip(i - 1));
    }
}

/// Round trip of a table: disassembling an assembled table yields the
/// original parts, whatever their sizes.
pub proof fn lemma_table_round_trip(parts: Seq<Seq<u8>>)
    requires
        table_total(parts) <= u32::MAX,
    ensures
        spec_disassemble_table(spec_assemble_table(parts)) == Ok::<Seq<Seq<u8>>, Error>(parts),
{
    lemma_auto_spec_u32_to_from_le_bytes();
    let b = spec_assemble_table(parts);
    let n = parts.len() as int;
    lemma_table_len(parts);
    if n == 0 {
        assert(parts =~= Seq::<Seq<u8>>::empty());
        assert(table_total(parts) == 4);
    } else {
        lemma_table_layout_at(parts, 0);
        assert(parts.take(0) =~= Seq::<Seq<u8>>::empty());
        let first = table_offset(parts, 0);
        assert(first == 4 * (n + 1));
        lemma_mod_multiples_basic(n + 1, 4);
        lemma_mul_is_commutative(n + 1, 4);
        lemma_div_multiples_vanish(n + 1, 4);
        assert(first / 4 - 1 == n);
        lemma_table_scan(parts, 1);
        assert(parts.skip(0) =~= parts);
    }
}

/// Round trip of a fixvec: disassembling an assembled fixvec yields the
/// original parts.
pub proof fn lemma_fixvec_round_trip(parts: Seq<Seq<u8>>)
    requires
        fixvec_assemblable(parts),
        parts.len() <= u32::MAX,
    ensures
        spec_disassemble_fixvec(spec_assemble_fixvec(parts)) == Ok::<Seq<Seq<u8>>, Error>(parts),
{
    lemma_auto_spec_u32_to_from_le_bytes();
    let b = spec_assemble_fixvec(parts);
    let n = parts.len() as int;
    lemma_concat_len(parts);
    assert(b.subrange(0, 4) =~= spec_u32_to_le_bytes(parts.len() as u32));
    if n == 0 {
        assert(parts =~= Seq::<Seq<u8>>::empty());
    } else {
        let width = parts[0].len();
        let size = width as int;
        lemma_take_full(parts);
        lemma_sum_uniform(parts, width, n);
        assert(b.len() - 4 == n * size);
        lemma_mul_strictly_positive(n, size);
        lemma_mod_multiples_basic(size, n);
        lemma_mul_is_commutative(n, size);
        lemma_div_multiples_vanish(size, n);
        assert((n * size) % n == 0);
        assert((n * size) / n == size);
        let target = Seq::new(
            n as nat,
            |j: int| b.subrange(4 + j * size, 4 + (j + 1) * size),
        );
        assert forall|j: int| 0 <= j < n implies target[j] == parts[j] by {
            lemma_concat_part(parts, j);
            lemma_sum_uniform(parts, width, j);
            lemma_mul_is_distributive_add_other_way(size, j, 1);
            lemma_mul_basics_4(size);
            lemma_mul_nonnegative(j, size);
            assert(b.subrange(4 + j * size, 4 + (j + 1) * size) =~= spec_concat(parts).subrange(
                sum_len(parts.take(j)) as int,
                sum_len(parts.take(j)) + parts[j].len() as int,
            ));
        }
        assert(target =~= parts);
    }
}

/// Exactness of the fixvec parser: any buffer it accepts with a nonzero item
/// count is precisely the assembly of the parts it returns. (With a zero
/// count only the four count bytes are constrained.)
pub proof fn lemma_fixvec_parse_exact(data: Seq<u8>, parts: Seq<Seq<u8>>)
    requires
        spec_disassemble_fixvec(data) == Ok::<Seq<Seq<u8>>, Error>(parts),
        parts.len() > 0,
    ensures
        fixvec_assemblable(parts),
        parts.len() <= u32::MAX,
        data == spec_assemble_fixvec(parts),
{
    lemma_auto_spec_u32_to_from_le_bytes();
    let count32 = spec_u32_from_le_bytes(data.subrange(0, 4));
    let count = count32 as int;
    assert(count != 0);
    let rem = data.len() - 4;
    let size = rem / count;
    vstd::arithmetic::div_mod::lemma_fundamental_div_mod(rem as int, count);
    assert(count * size == rem);
    assert(parts.len() == count);
    assert(size >= 0 && size * count <= rem) by {
        vstd::arithmetic::div_mod::lemma_div_pos_is_pos(rem as int, count);
    }
    assert forall|j: int| 0 <= j < count implies #[trigger] parts[j] == data.subrange(
        4 + j * size,
        4 + (j + 1) * size,
    ) && parts[j].len() == size by {
        assert(parts[j] == data.subrange(4 + j * size, 4 + (j + 1) * size));
        lemma_mul_is_distributive_add_other_way(size, j, 1);
        lemma_mul_basics_4(size);
        lemma_mul_nonnegative(j, size);
        lemma_mul_inequality(j + 1, count, size);
        lemma_mul_is_commutative(count, size);
    }
    if size == 0 {
        assert(count * 0 == 0) by {
            lemma_mul_is_commutative(count, 0);
        }
        assert(false);
    }
    assert(fixvec_assemblable(parts));
    // The body is the adjacent subranges, whose concatenation covers it.
    lemma_uniform_subranges_concat(data, 4, size, parts);
    assert(spec_concat(parts) == data.subrange(4, data.len() as int));
    assert(data.subrange(0, 4) == spec_u32_to_le_bytes(count32));
    assert(parts.len() as u32 == count32);
    assert(data =~= data.subrange(0, 4) + data.subrange(4, data.len() as int));
}

/// Exactness of the table scan: the parts it returns tile the buffer from
/// the first offset to the end, and every offset word read along the way is
/// the accumulated absolute offset.
proof fn lemma_table_rest_exact(data: Seq<u8>, count: int, i: int, last: int, rest: Seq<Seq<u8>>)
    requires
        spec_table_rest(data, count, i, last) == Ok::<Seq<Seq<u8>>, Error>(rest),
        1 <= i <= count,
        0 <= last <= data.len(),
    ensures
        rest.len() == count - i + 1,
        sum_len(rest) == data.len() - last,
        spec_concat(rest) == data.subrange(last, data.len() as int),
        forall|w: int|
            i <= w < count ==> #[trigger] table_word(data, w) == Some(
                (last + sum_len(rest.take(w - i + 1))) as u32,
            ),
    decreases count - i,
{
    if i >= count {
        let tail = data.subrange(last, data.len() as int);
        assert(rest =~= seq![tail]);
        assert(rest.drop_last() =~= Seq::<Seq<u8>>::empty());
        assert(sum_len(Seq::<Seq<u8>>::empty()) == 0);
        assert(spec_concat(Seq::<Seq<u8>>::empty()) == Seq::<u8>::empty());
        assert(sum_len(rest) == sum_len(rest.drop_last()) + tail.len());
        assert(spec_concat(rest) == spec_concat(rest.drop_last()) + tail);
        assert(Seq::<u8>::empty() + tail =~= tail);
    } else {
        let off32 = spec_u32_from_le_bytes(data.subrange(4 * (i + 1), 4 * (i + 1) + 4));
        let off = off32 as int;
        let rest2 = spec_table_rest(data, count, i + 1, off)->Ok_0;
        assert(spec_table_rest(data, count, i + 1, off) == Ok::<Seq<Seq<u8>>, Error>(rest2));
        let head = data.subrange(last, off);
        assert(rest == seq![head] + rest2);
        lemma_table_rest_exact(data, count, i + 1, off, rest2);
        lemma_concat_cons(head, rest2);
        assert(head + data.subrange(off, data.len() as int) =~= data.subrange(
            last,
            data.len() as int,
        ));
        assert forall|w: int| i <= w < count implies #[trigger] table_word(data, w) == Some(
            (last + sum_len(rest.take(w - i + 1))) as u32,
        ) by {
            if w == i {
                assert(rest.take(1) =~= seq![head]);
                assert(seq![head].drop_last() =~= Seq::<Seq<u8>>::empty());
                assert(sum_len(Seq::<Seq<u8>>::empty()) == 0);
                assert(sum_len(seq![head]) == sum_len(seq![head].drop_last()) + head.len());
                assert(sum_len(rest.take(1)) == off - last);
            } else {
                assert(rest.take(w - i + 1) =~= seq![head] + rest2.take(w - i));
                lemma_concat_cons(head, rest2.take(w - i));
                assert(table_word(data, w) == Some(
                    (off + sum_len(rest2.take(w - (i + 1) + 1))) as u32,
                ));
            }
        }
    }
}

/// Exactness of the table parser: any buffer it accepts is precisely the
/// assembly of the parts it returns. Together with the round-trip law this
/// says the parser accepts valid table encodings and nothing else.
pub proof fn lemma_table_parse_exact(data: Seq<u8>, parts: Seq<Seq<u8>>)
    requires
        spec_disassemble_table(data) == Ok::<Seq<Seq<u8>>, Error>(parts),
    ensures
        table_total(parts) <= u32::MAX,
        data == spec_assemble_table(parts),
{
    lemma_auto_spec_u32_to_from_le_bytes();
    let total32 = spec_u32_from_le_bytes(data.subrange(0, 4));
    let total = total32 as int;
    assert(data.len() == total);
    if total == 4 {
        assert(parts =~= Seq::<Seq<u8>>::empty());
        assert(table_offsets_seq(parts) =~= Seq::<Seq<u8>>::empty());
        assert(data.subrange(0, 4) == spec_u32_to_le_bytes(total32));
        assert(data =~= data.subrange(0, 4));
        assert(spec_assemble_table(parts) =~= spec_u32_to_le_bytes(4u32) + Seq::<u8>::empty()
            + Seq::<u8>::empty());
    } else {
        let first32 = spec_u32_from_le_bytes(data.subrange(4, 8));
        let first = first32 as int;
        let count = first / 4 - 1;
        vstd::arithmetic::div_mod::lemma_fundamental_div_mod(first, 4);
        assert(first == 4 * (count + 1));
        lemma_table_rest_exact(data, count, 1, first, parts);
        assert(parts.len() == count);
        lemma_take_full(parts);
        assert(table_total(parts) == total);
        // Every offset word reads back the accumulated field offset.
        assert forall|w: int| 0 <= w < count implies data.subrange(4 * (w + 1), 4 * (w + 1) + 4)
            == spec_u32_to_le_bytes(table_offset(parts, w) as u32) by {
            if w == 0 {
                assert(parts.take(0) =~= Seq::<Seq<u8>>::empty());
                assert(table_offset(parts, 0) == first);
                assert(data.subrange(4, 8) == spec_u32_to_le_bytes(first32));
                assert(data.subrange(4int * 1, 4int * 1 + 4) =~= data.subrange(4, 8));
            } else {
                assert(table_word(data, w) == Some((first + sum_len(parts.take(w))) as u32));
                assert(table_offset(parts, w) == first + sum_len(parts.take(w)));
                assert(data.subrange(4 * (w + 1), 4 * (w + 1) + 4) == spec_u32_to_le_bytes(
                    (first + sum_len(parts.take(w))) as u32,
                ));
            }
        }
        // The offset words tile the header region.
        let words = Seq::new(count as nat, |w: int| data.subrange(4 + w * 4, 4 + (w + 1) * 4));
        assert forall|w: int| 0 <= w < count implies table_offsets_seq(parts)[w] == words[w] by {
            assert(4 + w * 4 == 4 * (w + 1)) by {
                lemma_mul_is_commutative(w, 4);
            }
            assert(4 + (w + 1) * 4 == 4 * (w + 1) + 4) by {
                lemma_mul_is_commutative(w + 1, 4);
                lemma_mul_is_distributive_add_other_way(4, w, 1);
            }
        }
        assert(table_offsets_seq(parts) =~= words);
        lemma_uniform_subranges_concat(data, 4, 4, words);
        assert(spec_concat(words) == data.subrange(4, 4 + count * 4));
        assert(4 + count * 4 == first) by {
            lemma_mul_is_commutative(count, 4);
            lemma_mul_is_distributive_add_other_way(4, count, 1);
        }
        // The three segments compose the whole buffer.
        assert(data.subrange(0, 4) == spec_u32_to_le_bytes(total32));
        assert(total as u32 == total32);
        assert(data =~= data.subrange(0, 4) + data.subrange(4, first) + data.subrange(
            first,
            data.len() as int,
        ));
    }
}

} // verus!
