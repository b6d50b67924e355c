//! Size attributes of the types the codec handles: whether a type's
//! Molecule encoding has a fixed byte size.

use vstd::prelude::*;

verus! {

/// Whether a type's Molecule encoding has a fixed byte size. Fixed-size
/// types may appear as fixvec items and as Molecule struct fields;
/// variable-size types need a table or dynvec around them.
pub trait MoleculeAttribute {
    /// True unless the implementing type says otherwise.
    fn is_fixed_size() -> bool {
        true
    }
}

impl MoleculeAttribute for u8 {

}

impl MoleculeAttribute for i8 {

}

impl MoleculeAttribute for u16 {

}

impl MoleculeAttribute for i16 {

}

impl MoleculeAttribute for u32 {

}

impl MoleculeAttribute for i32 {

}

impl MoleculeAttribute for u64 {

}

impl MoleculeAttribute for i64 {

}

impl MoleculeAttribute for u128 {

}

impl MoleculeAttribute for i128 {

}

impl<T> MoleculeAttribute for Vec<T> {
    fn is_fixed_size() -> bool {
        false
    }
}

impl MoleculeAttribute for &str {
    fn is_fixed_size() -> bool {
        false
    }
}

impl MoleculeAttribute for String {
    fn is_fixed_size() -> bool {
        false
    }
}

} // verus!
