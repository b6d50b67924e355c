use std::collections::{BTreeMap, LinkedList};

use serde_molecule::de::{
    ArrayAccess, DynvecAccess, FixvecAccess, MappingAccess, MoleculeDeserializer, TableAccess,
};
use serde_molecule::error::Error;
use serde_molecule::molecule::assemble_table;
use serde_molecule::ser::{FixVec, MapBuilder, MoleculeSerializer, Table, Tuple};
use serde_molecule::struct_serde::{ArrayAccess as StructArrayAccess, MoleculeStructDeserializer};

// ---------------------------------------------------------------------------
// Encoding helpers: each returns the Molecule bytes of one value, driving
// the library the way a host framework's callbacks would.
// ---------------------------------------------------------------------------

fn ser_u8(v: u8) -> Vec<u8> {
    let mut s = MoleculeSerializer::new(false);
    s.serialize_u8(v).unwrap();
    s.into_data()
}

fn ser_u16(v: u16) -> Vec<u8> {
    let mut s = MoleculeSerializer::new(false);
    s.serialize_u16(v).unwrap();
    s.into_data()
}

fn ser_u32(v: u32) -> Vec<u8> {
    let mut s = MoleculeSerializer::new(false);
    s.serialize_u32(v).unwrap();
    s.into_data()
}

fn ser_u64(v: u64) -> Vec<u8> {
    let mut s = MoleculeSerializer::new(false);
    s.serialize_u64(v).unwrap();
    s.into_data()
}

fn ser_str(v: &str) -> Vec<u8> {
    let mut s = MoleculeSerializer::new(false);
    s.serialize_str(v).unwrap();
    s.into_data()
}

fn tuple3(v: &[u8; 3]) -> Vec<u8> {
    let mut s = MoleculeSerializer::new(true);
    let mut t = Tuple::new();
    for b in v.iter() {
        t.serialize_element(ser_u8(*b)).unwrap();
    }
    t.end(&mut s).unwrap();
    s.into_data()
}

fn tuple5x2(v: &[[u8; 5]; 2]) -> Vec<u8> {
    let mut s = MoleculeSerializer::new(true);
    let mut outer = Tuple::new();
    for inner in v.iter() {
        let mut si = MoleculeSerializer::new(true);
        let mut t = Tuple::new();
        for b in inner.iter() {
            t.serialize_element(ser_u8(*b)).unwrap();
        }
        t.end(&mut si).unwrap();
        outer.serialize_element(si.into_data()).unwrap();
    }
    outer.end(&mut s).unwrap();
    s.into_data()
}

fn fixvec_u8(v: &[u8]) -> Vec<u8> {
    let mut s = MoleculeSerializer::new(false);
    let mut fv = FixVec::new();
    for b in v.iter() {
        fv.serialize_element(ser_u8(*b)).unwrap();
    }
    fv.end(&mut s).unwrap();
    s.into_data()
}

fn fixvec_arr3(v: &LinkedList<[u8; 3]>) -> Vec<u8> {
    let mut s = MoleculeSerializer::new(false);
    let mut fv = FixVec::new();
    for e in v.iter() {
        fv.serialize_element(tuple3(e)).unwrap();
    }
    fv.end(&mut s).unwrap();
    s.into_data()
}

fn dynvec_bytes(v: &[Vec<u8>]) -> Vec<u8> {
    let parts: Vec<Vec<u8>> = v.iter().map(|e| fixvec_u8(e)).collect();
    assemble_table(&parts)
}

fn map_u32_str(m: &BTreeMap<u32, String>) -> Vec<u8> {
    let mut s = MoleculeSerializer::new(false);
    let mut mb = MapBuilder::new();
    for (k, v) in m.iter() {
        mb.serialize_key(ser_u32(*k)).unwrap();
        mb.serialize_value(ser_str(v)).unwrap();
    }
    mb.end(&mut s).unwrap();
    s.into_data()
}

// ---------------------------------------------------------------------------
// Decoding helpers.
// ---------------------------------------------------------------------------

fn de_u8(bytes: &[u8]) -> u8 {
    MoleculeDeserializer::new(bytes).as_u8().unwrap()
}

fn de_u16(bytes: &[u8]) -> u16 {
    MoleculeDeserializer::new(bytes).as_u16().unwrap()
}

fn de_u32(bytes: &[u8]) -> u32 {
    MoleculeDeserializer::new(bytes).as_u32().unwrap()
}

fn de_str(bytes: &[u8]) -> String {
    let raw = MoleculeDeserializer::new(bytes).disassemble_bytes().unwrap();
    String::from_utf8_lossy(&raw).into_owned()
}

fn de_arr3(bytes: &[u8]) -> [u8; 3] {
    let de = MoleculeDeserializer::new(bytes);
    let mut aa = ArrayAccess::new(&de, 3);
    aa.parse().unwrap();
    let mut out = [0u8; 3];
    let mut i = 0;
    while let Some(part) = aa.next_element() {
        out[i] = de_u8(&part);
        i += 1;
    }
    assert_eq!(i, 3);
    out
}

fn de_vec_u8(bytes: &[u8]) -> Vec<u8> {
    let de = MoleculeDeserializer::new(bytes);
    let mut fa = FixvecAccess::new(&de);
    fa.parse().unwrap();
    let mut out = vec![];
    while let Some(part) = fa.next_element() {
        // Fixvec items are fixed-size and decode in struct mode.
        let mut sde = MoleculeStructDeserializer::new(part);
        out.push(sde.read_u8().unwrap());
    }
    out
}

// ---------------------------------------------------------------------------
// The test data model, mirroring the shapes the codec is used with.
// ---------------------------------------------------------------------------

#[derive(Clone, PartialEq, Default, Debug)]
struct StructInner {
    f0: u32,
}

#[derive(Clone, PartialEq, Default, Debug)]
struct Struct0 {
    f0: u8,
    f1: u64,
    f2: [u8; 3],
    f3: StructInner,
    f4: u32,
}

#[derive(Clone, PartialEq, Debug)]
enum Union0 {
    A(u32),
    B(String),
    C([u8; 3]),
}

impl Default for Union0 {
    fn default() -> Self {
        Union0::A(100)
    }
}

#[derive(Clone, PartialEq, Default, Debug)]
struct Struct1 {
    f1: u8,
    f2: u16,
    f3: [u8; 3],
    f4: [[u8; 5]; 2],
    f5: Vec<u8>,
    f6: String,
    f7: Option<u32>,
    f8: Vec<Vec<u8>>,
    f9: LinkedList<[u8; 3]>,
    f10: Struct0,
    f11: BTreeMap<u32, String>,
    f12: Union0,
}

// Struct0 carries a struct-mode field adapter: it is framed as a bare
// concatenation of its fixed-size fields, with StructInner nested the same
// way.
fn encode_struct0(v: &Struct0) -> Vec<u8> {
    let mut s = MoleculeSerializer::new(true);
    let mut t = Table::new(5, true);
    t.serialize_field(ser_u8(v.f0)).unwrap();
    t.serialize_field(ser_u64(v.f1)).unwrap();
    t.serialize_field(tuple3(&v.f2)).unwrap();
    {
        let mut si = MoleculeSerializer::new(true);
        let mut ti = Table::new(1, true);
        ti.serialize_field(ser_u32(v.f3.f0)).unwrap();
        ti.end(&mut si).unwrap();
        t.serialize_field(si.into_data()).unwrap();
    }
    t.serialize_field(ser_u32(v.f4)).unwrap();
    t.end(&mut s).unwrap();
    s.into_data()
}

fn decode_struct0(bytes: Vec<u8>) -> Struct0 {
    let mut sde = MoleculeStructDeserializer::new(bytes);
    let f0 = sde.read_u8().unwrap();
    let f1 = sde.read_u64().unwrap();
    let f2 = [
        sde.read_u8().unwrap(),
        sde.read_u8().unwrap(),
        sde.read_u8().unwrap(),
    ];
    let f3 = StructInner { f0: sde.read_u32().unwrap() };
    let f4 = sde.read_u32().unwrap();
    Struct0 { f0, f1, f2, f3, f4 }
}

fn encode_union0(v: &Union0) -> Vec<u8> {
    let mut s = MoleculeSerializer::new(false);
    match v {
        Union0::A(x) => {
            s.serialize_u32(0).unwrap();
            s.serialize_u32(*x).unwrap();
        }
        Union0::B(x) => {
            s.serialize_u32(1).unwrap();
            s.serialize_str(x).unwrap();
        }
        Union0::C(x) => {
            s.serialize_u32(2).unwrap();
            s.serialize_bytes(&tuple3(x)).unwrap();
        }
    }
    s.into_data()
}

fn decode_union0(bytes: &[u8]) -> Union0 {
    let mut de = MoleculeDeserializer::new(bytes);
    let tag = de.take_union_tag().unwrap();
    match tag {
        0 => Union0::A(de.as_u32().unwrap()),
        1 => {
            let raw = de.disassemble_bytes().unwrap();
            Union0::B(String::from_utf8_lossy(&raw).into_owned())
        }
        2 => Union0::C(de_arr3(&de.bytes())),
        _ => panic!("unknown Union0 tag"),
    }
}

fn encode_struct1(v: &Struct1) -> Vec<u8> {
    let mut s = MoleculeSerializer::new(false);
    let mut t = Table::new(12, false);
    t.serialize_field(ser_u8(v.f1)).unwrap();
    t.serialize_field(ser_u16(v.f2)).unwrap();
    t.serialize_field(tuple3(&v.f3)).unwrap();
    t.serialize_field(tuple5x2(&v.f4)).unwrap();
    t.serialize_field(fixvec_u8(&v.f5)).unwrap();
    t.serialize_field(ser_str(&v.f6)).unwrap();
    t.serialize_field(match v.f7 {
        None => vec![],
        Some(x) => ser_u32(x),
    })
    .unwrap();
    t.serialize_field(dynvec_bytes(&v.f8)).unwrap();
    t.serialize_field(fixvec_arr3(&v.f9)).unwrap();
    t.serialize_field(encode_struct0(&v.f10)).unwrap();
    t.serialize_field(map_u32_str(&v.f11)).unwrap();
    t.serialize_field(encode_union0(&v.f12)).unwrap();
    t.end(&mut s).unwrap();
    s.into_data()
}

fn decode_struct1(bytes: &[u8]) -> Struct1 {
    let de = MoleculeDeserializer::new(bytes);
    let mut ta = TableAccess::new(&de, 12);
    ta.parse().unwrap();
    assert_eq!(ta.next_key(), Some(0));
    let f1 = de_u8(&ta.next_value());
    let f2 = de_u16(&ta.next_value());
    let f3 = de_arr3(&ta.next_value());
    let f4 = {
        let b = ta.next_value();
        let vde = MoleculeDeserializer::new(&b);
        let mut outer = ArrayAccess::new(&vde, 2);
        outer.parse().unwrap();
        let mut out = [[0u8; 5]; 2];
        let mut i = 0;
        while let Some(part) = outer.next_element() {
            let pde = MoleculeDeserializer::new(&part);
            let mut inner = ArrayAccess::new(&pde, 5);
            inner.parse().unwrap();
            let mut j = 0;
            while let Some(e) = inner.next_element() {
                out[i][j] = de_u8(&e);
                j += 1;
            }
            i += 1;
        }
        out
    };
    let f5 = de_vec_u8(&ta.next_value());
    let f6 = de_str(&ta.next_value());
    let f7 = {
        let b = ta.next_value();
        if b.is_empty() {
            None
        } else {
            Some(de_u32(&b))
        }
    };
    let f8 = {
        let b = ta.next_value();
        let vde = MoleculeDeserializer::new(&b);
        let mut da = DynvecAccess::new(&vde);
        da.parse().unwrap();
        let mut out: Vec<Vec<u8>> = vec![];
        while let Some(_k) = da.next_key() {
            out.push(de_vec_u8(&da.next_value()));
        }
        out
    };
    let f9 = {
        let b = ta.next_value();
        let vde = MoleculeDeserializer::new(&b);
        let mut fa = FixvecAccess::new(&vde);
        fa.parse().unwrap();
        let mut out: LinkedList<[u8; 3]> = LinkedList::new();
        while let Some(part) = fa.next_element() {
            // Fixvec items decode in struct mode; a 3-byte array reads its
            // elements off the shared cursor.
            let mut sde = MoleculeStructDeserializer::new(part);
            let mut counter = StructArrayAccess::new(3);
            let mut arr = [0u8; 3];
            let mut i = 0;
            while counter.try_advance() {
                arr[i] = sde.read_u8().unwrap();
                i += 1;
            }
            out.push_back(arr);
        }
        out
    };
    let f10 = decode_struct0(ta.next_value());
    let f11 = {
        let b = ta.next_value();
        let vde = MoleculeDeserializer::new(&b);
        let mut ma = MappingAccess::new(&vde);
        ma.parse().unwrap();
        let mut out: BTreeMap<u32, String> = BTreeMap::new();
        while let Some(kb) = ma.next_key() {
            let vb = ma.next_value();
            out.insert(de_u32(&kb), de_str(&vb));
        }
        out
    };
    let f12 = decode_union0(&ta.next_value());
    assert_eq!(ta.next_key(), None);
    Struct1 { f1, f2, f3, f4, f5, f6, f7, f8, f9, f10, f11, f12 }
}

fn test_once(value: &Struct1) {
    let bytes = encode_struct1(value);
    let value2 = decode_struct1(&bytes);
    let bytes2 = encode_struct1(&value2);
    assert_eq!(bytes, bytes2, "Re-serialized bytes do not match original");
}

#[test]
fn test_serde_1() {
    let mut value = Struct1::default();

    // Test case 1: Basic initialization
    value.f1 = 100;
    value.f2 = 200;
    value.f3 = [1, 2, 3];
    value.f4 = [[1, 2, 3, 4, 5], [1, 2, 3, 4, 5]];
    value.f5 = vec![1, 2, 3];
    value.f6 = String::from("hello");
    value.f7 = Some(42);
    value.f8 = vec![vec![1, 2, 3], vec![4, 5, 6], vec![]];
    value.f9 = LinkedList::from([[1, 2, 3], [4, 5, 6]]);
    value.f10.f0 = 1;
    value.f10.f1 = 1000;
    value.f10.f2 = [10, 20, 30];
    value.f10.f3.f0 = 12345;
    value.f10.f4 = 54321;
    value.f11.insert(1, "hi".into());
    value.f11.insert(2, "hi2".into());
    value.f11.insert(100, "hi100".into());
    value.f12 = Union0::B("hello".into());
    test_once(&value);

    // Test case 2: Modifying Union0
    value.f12 = Union0::A(42);
    test_once(&value);
    value.f12 = Union0::C([1, 2, 3]);
    test_once(&value);

    // Test case 3: Empty and nested vectors
    value.f8 = vec![];
    test_once(&value);
    value.f8 = vec![vec![]];
    test_once(&value);
    value.f8 = vec![vec![], vec![1, 2, 3]];
    test_once(&value);
    value.f8 = vec![vec![1], vec![1, 2], vec![1, 2, 3]];
    test_once(&value);

    // Test case 4: Modifying Option<u32>
    value.f7 = None;
    test_once(&value);
    value.f7 = Some(0);
    test_once(&value);

    // Test case 5: Complex LinkedList
    value.f9 = LinkedList::new();
    test_once(&value);
    value.f9.push_back([0, 0, 0]);
    value.f9.push_back([255, 255, 255]);
    test_once(&value);

    // Test case 6: Complex BTreeMap
    value.f11.clear();
    test_once(&value);
    value.f11.insert(0, "".into());
    value.f11.insert(u32::MAX, "max".into());
    test_once(&value);

    // Test case 7: Edge cases for numeric fields
    value.f1 = u8::MAX;
    value.f2 = u16::MAX;
    value.f10.f0 = u8::MIN;
    value.f10.f1 = u64::MAX;
    value.f10.f4 = u32::MIN;
    test_once(&value);

    // Test case 8: Long string
    value.f6 = "a".repeat(1000);
    test_once(&value);

    // Test case 9: Mixed modifications
    value.f3 = [255, 0, 255];
    value.f4 = [[0, 1, 2, 3, 4], [5, 6, 7, 8, 9]];
    value.f5 = vec![100, 101, 102, 103, 104];
    value.f7 = Some(999999);
    value.f8 = vec![vec![255; 10], vec![128; 5], vec![0; 3]];
    value.f12 = Union0::B("Mixed test case".into());
    test_once(&value);
}

#[test]
fn test_result() {
    let mut value = Struct1::default();
    value.f1 = 100;
    value.f2 = 200;
    value.f3 = [1, 2, 3];
    value.f4 = [[1, 2, 3, 4, 5], [1, 2, 3, 4, 5]];

    // Ok is the first variant of Result: a 4-byte zero tag, then the value.
    let mut s = MoleculeSerializer::new(false);
    s.serialize_u32(0).unwrap();
    s.serialize_bytes(&encode_struct1(&value)).unwrap();
    let bytes = s.into_data();

    let mut de = MoleculeDeserializer::new(&bytes);
    let tag = de.take_union_tag().unwrap();
    assert_eq!(tag, 0);
    let value2 = decode_struct1(&de.bytes());

    let mut s2 = MoleculeSerializer::new(false);
    s2.serialize_u32(0).unwrap();
    s2.serialize_bytes(&encode_struct1(&value2)).unwrap();
    assert_eq!(bytes, s2.into_data());
}

#[test]
fn test_unit_variant() {
    // The third variant of a three-variant union, with no payload.
    let mut s = MoleculeSerializer::new(false);
    s.serialize_unit_variant(2).unwrap();
    let bytes = s.into_data();
    assert_eq!(bytes, vec![2, 0, 0, 0]);

    let mut de = MoleculeDeserializer::new(&bytes);
    let tag = de.take_union_tag().unwrap();
    assert_eq!(tag, 2);
    assert!(de.is_empty());

    let mut s2 = MoleculeSerializer::new(false);
    s2.serialize_unit_variant(tag as u32).unwrap();
    assert_eq!(s2.into_data(), bytes);
}

#[test]
fn test_skip_field() {
    // A record of three fields whose middle field is skipped: only two
    // fields reach the wire.
    let f1: u8 = 1;
    let ignore: u8 = 2;
    let f2: u32 = 3;
    let mut s = MoleculeSerializer::new(false);
    let mut t = Table::new(2, false);
    t.serialize_field(ser_u8(f1)).unwrap();
    t.serialize_field(ser_u32(f2)).unwrap();
    t.end(&mut s).unwrap();
    let bytes = s.into_data();
    assert_eq!(
        bytes,
        vec![17, 0, 0, 0, 12, 0, 0, 0, 13, 0, 0, 0, 1, 3, 0, 0, 0]
    );

    let de = MoleculeDeserializer::new(&bytes);
    let mut ta = TableAccess::new(&de, 2);
    ta.parse().unwrap();
    let f1_back = de_u8(&ta.next_value());
    let f2_back = de_u32(&ta.next_value());
    // The skipped field never reaches the wire, so decoding restores the
    // default in its place.
    let ignore_back: u8 = 0;
    assert_eq!(f1, f1_back);
    assert_eq!(f2, f2_back);
    assert_eq!(ignore, 2);
    assert_eq!(ignore_back, 0);
}

#[test]
fn test_union_with_dynvec() {
    // A union whose first variant carries a dynvec of strings.
    let vs: Vec<String> = vec!["hello".into(), "world".into(), "".into()];
    let mut s = MoleculeSerializer::new(false);
    s.serialize_u32(0).unwrap();
    let parts: Vec<Vec<u8>> = vs.iter().map(|e| ser_str(e)).collect();
    s.serialize_bytes(&assemble_table(&parts)).unwrap();
    let bytes = s.into_data();

    let mut de = MoleculeDeserializer::new(&bytes);
    let tag = de.take_union_tag().unwrap();
    assert_eq!(tag, 0);
    let payload = de.bytes();
    let pde = MoleculeDeserializer::new(&payload);
    let mut da = DynvecAccess::new(&pde);
    da.parse().unwrap();
    let mut vs2: Vec<String> = vec![];
    while let Some(_k) = da.next_key() {
        vs2.push(de_str(&da.next_value()));
    }
    assert_eq!(vs, vs2);

    let mut s2 = MoleculeSerializer::new(false);
    s2.serialize_u32(0).unwrap();
    let parts2: Vec<Vec<u8>> = vs2.iter().map(|e| ser_str(e)).collect();
    s2.serialize_bytes(&assemble_table(&parts2)).unwrap();
    assert_eq!(bytes, s2.into_data());
}

#[test]
fn test_unit() {
    // A unit value has no bytes.
    let mut s = MoleculeSerializer::new(false);
    s.serialize_unit().unwrap();
    let bytes = s.into_data();
    assert_eq!(bytes, Vec::<u8>::new());

    // Ok(()) of a Result is the zero tag with an empty payload.
    let mut s = MoleculeSerializer::new(false);
    s.serialize_u32(0).unwrap();
    s.serialize_unit().unwrap();
    let bytes = s.into_data();
    let mut de = MoleculeDeserializer::new(&bytes);
    assert_eq!(de.take_union_tag().unwrap(), 0);
    assert!(de.is_empty());
    let mut s2 = MoleculeSerializer::new(false);
    s2.serialize_u32(0).unwrap();
    s2.serialize_unit().unwrap();
    assert_eq!(bytes, s2.into_data());

    // Err("error") is the one tag followed by the string.
    let mut s = MoleculeSerializer::new(false);
    s.serialize_u32(1).unwrap();
    s.serialize_str("error").unwrap();
    let bytes = s.into_data();
    let mut de = MoleculeDeserializer::new(&bytes);
    assert_eq!(de.take_union_tag().unwrap(), 1);
    let msg = String::from_utf8_lossy(&de.disassemble_bytes().unwrap()).into_owned();
    assert_eq!(msg, "error");
    let mut s2 = MoleculeSerializer::new(false);
    s2.serialize_u32(1).unwrap();
    s2.serialize_str(&msg).unwrap();
    assert_eq!(bytes, s2.into_data());
}

#[test]
fn test_char() {
    let c = 'a';
    let mut s = MoleculeSerializer::new(false);
    s.serialize_char(c).unwrap();
    let bytes = s.into_data();
    assert_eq!(bytes, vec![97, 0, 0, 0]);
    let c2 = MoleculeDeserializer::new(&bytes).as_char().unwrap();
    assert_eq!(c, c2);
    let mut s2 = MoleculeSerializer::new(false);
    s2.serialize_char(c2).unwrap();
    assert_eq!(bytes, s2.into_data());
}

#[test]
fn test_big_array_nested() {
    // Arrays past the host framework's size limits are framed as tuples of
    // struct-mode elements; nested fixed-size arrays concatenate.
    let f1: u8 = 100;
    let f2 = [[1u8, 1u8]; 33];
    let f3 = [[2u8, 2u8, 2u8]; 64];

    let mut s = MoleculeSerializer::new(false);
    let mut t = Table::new(3, false);
    t.serialize_field(ser_u8(f1)).unwrap();
    {
        let mut si = MoleculeSerializer::new(true);
        let mut tu = Tuple::new();
        for inner in f2.iter() {
            tu.serialize_element(inner.to_vec()).unwrap();
        }
        tu.end(&mut si).unwrap();
        t.serialize_field(si.into_data()).unwrap();
    }
    {
        let mut si = MoleculeSerializer::new(true);
        let mut tu = Tuple::new();
        for inner in f3.iter() {
            tu.serialize_element(inner.to_vec()).unwrap();
        }
        tu.end(&mut si).unwrap();
        t.serialize_field(si.into_data()).unwrap();
    }
    t.end(&mut s).unwrap();
    let bytes = s.into_data();

    let de = MoleculeDeserializer::new(&bytes);
    let mut ta = TableAccess::new(&de, 3);
    ta.parse().unwrap();
    let f1_back = de_u8(&ta.next_value());
    let f2_back = {
        let b = ta.next_value();
        let vde = MoleculeDeserializer::new(&b);
        let mut outer = ArrayAccess::new(&vde, 33);
        outer.parse().unwrap();
        let mut out = [[0u8; 2]; 33];
        let mut i = 0;
        while let Some(part) = outer.next_element() {
            let pde = MoleculeDeserializer::new(&part);
            let mut inner = ArrayAccess::new(&pde, 2);
            inner.parse().unwrap();
            let mut j = 0;
            while let Some(e) = inner.next_element() {
                out[i][j] = de_u8(&e);
                j += 1;
            }
            i += 1;
        }
        out
    };
    let f3_back = {
        let b = ta.next_value();
        let vde = MoleculeDeserializer::new(&b);
        let mut outer = ArrayAccess::new(&vde, 64);
        outer.parse().unwrap();
        let mut out = [[0u8; 3]; 64];
        let mut i = 0;
        while let Some(part) = outer.next_element() {
            out[i] = de_arr3(&part);
            i += 1;
        }
        out
    };
    assert_eq!(f1, f1_back);
    assert_eq!(f2, f2_back);
    assert_eq!(f3, f3_back);
}

#[test]
fn test_big_array() {
    let f1: u8 = 100;
    let f2 = [1u8; 33];
    let f3 = [2u8; 64];

    let mut s = MoleculeSerializer::new(false);
    let mut t = Table::new(3, false);
    t.serialize_field(ser_u8(f1)).unwrap();
    {
        let mut si = MoleculeSerializer::new(true);
        let mut tu = Tuple::new();
        for b in f2.iter() {
            tu.serialize_element(ser_u8(*b)).unwrap();
        }
        tu.end(&mut si).unwrap();
        t.serialize_field(si.into_data()).unwrap();
    }
    {
        let mut si = MoleculeSerializer::new(true);
        let mut tu = Tuple::new();
        for b in f3.iter() {
            tu.serialize_element(ser_u8(*b)).unwrap();
        }
        tu.end(&mut si).unwrap();
        t.serialize_field(si.into_data()).unwrap();
    }
    t.end(&mut s).unwrap();
    let bytes = s.into_data();

    let de = MoleculeDeserializer::new(&bytes);
    let mut ta = TableAccess::new(&de, 3);
    ta.parse().unwrap();
    assert_eq!(de_u8(&ta.next_value()), f1);
    {
        let b = ta.next_value();
        let vde = MoleculeDeserializer::new(&b);
        let mut aa = ArrayAccess::new(&vde, 33);
        aa.parse().unwrap();
        let mut out = [0u8; 33];
        let mut i = 0;
        while let Some(e) = aa.next_element() {
            out[i] = de_u8(&e);
            i += 1;
        }
        assert_eq!(out, f2);
    }
    {
        let b = ta.next_value();
        let vde = MoleculeDeserializer::new(&b);
        let mut aa = ArrayAccess::new(&vde, 64);
        aa.parse().unwrap();
        let mut out = [0u8; 64];
        let mut i = 0;
        while let Some(e) = aa.next_element() {
            out[i] = de_u8(&e);
            i += 1;
        }
        assert_eq!(out, f3);
    }
}

#[test]
fn test_nested_struct() {
    // A table whose first field is a struct-mode record.
    let s0 = Struct0 {
        f0: 0x12,
        f1: 0x34,
        f2: [5, 6, 7],
        f3: StructInner { f0: 0x87654321 },
        f4: 0x1234,
    };
    let f1: u32 = 0x12345678;

    let mut s = MoleculeSerializer::new(false);
    let mut t = Table::new(2, false);
    t.serialize_field(encode_struct0(&s0)).unwrap();
    t.serialize_field(ser_u32(f1)).unwrap();
    t.end(&mut s).unwrap();
    let bytes = s.into_data();

    let de = MoleculeDeserializer::new(&bytes);
    let mut ta = TableAccess::new(&de, 2);
    ta.parse().unwrap();
    let s0_back = decode_struct0(ta.next_value());
    let f1_back = de_u32(&ta.next_value());
    assert_eq!(s0_back.f4, s0.f4);
    assert_eq!(s0_back.f4, 0x1234);
    assert_eq!(f1_back, 0x12345678);
    assert_eq!(s0_back, s0);
}

#[test]
fn test_customized_union_id() {
    // A union variant carrying an explicit 32-bit tag instead of the
    // sequential index, with its payload in struct mode.
    let tag: u32 = 0xFF000001;
    let f1: u8 = 100;
    let f2: u16 = 200;

    let mut s = MoleculeSerializer::new(false);
    s.serialize_u32(tag).unwrap();
    let mut si = MoleculeSerializer::new(true);
    let mut t = Table::new(2, true);
    t.serialize_field(ser_u8(f1)).unwrap();
    t.serialize_field(ser_u16(f2)).unwrap();
    t.end(&mut si).unwrap();
    s.serialize_bytes(&si.into_data()).unwrap();
    let bytes = s.into_data();
    assert_eq!(bytes, vec![0x01, 0x00, 0x00, 0xFF, 100, 0xC8, 0x00]);

    let mut de = MoleculeDeserializer::new(&bytes);
    let tag_back = de.take_union_tag().unwrap();
    assert_eq!(tag_back, 4278190081);
    let mut sde = MoleculeStructDeserializer::new(de.bytes());
    assert_eq!(sde.read_u8().unwrap(), 100);
    assert_eq!(sde.read_u16().unwrap(), 200);
}

#[test]
fn test_forward_compatibility() {
    // A table holding more fields than the target declares decodes fine;
    // one holding fewer is rejected.
    let parts = vec![ser_u8(1), ser_u32(2), ser_u8(3)];
    let bytes = assemble_table(&parts);
    let de = MoleculeDeserializer::new(&bytes);

    let mut ta = TableAccess::new(&de, 2);
    ta.parse().unwrap();
    assert_eq!(de_u8(&ta.next_value()), 1);
    assert_eq!(de_u32(&ta.next_value()), 2);
    assert_eq!(ta.next_key(), None);

    let mut ta4 = TableAccess::new(&de, 4);
    assert!(matches!(
        ta4.parse(),
        Err(Error::MismatchedTableFieldCount)
    ));
}

#[test]
fn test_primitive_errors() {
    let de = MoleculeDeserializer::new(&[1, 2, 3]);
    assert!(matches!(de.as_u32(), Err(Error::MismatchedLength)));
    assert!(matches!(de.as_u16(), Err(Error::MismatchedLength)));
    assert!(matches!(de.as_bool(), Err(Error::MismatchedLength)));

    let mut short = MoleculeDeserializer::new(&[1, 2]);
    assert!(matches!(
        short.take_union_tag(),
        Err(Error::LengthNotEnough)
    ));

    let mut sde = MoleculeStructDeserializer::new(vec![1, 2, 3]);
    assert_eq!(sde.read_u16().unwrap(), 0x0201);
    assert!(matches!(sde.read_u16(), Err(Error::MismatchedLength)));
    assert_eq!(sde.read_u8().unwrap(), 3);
    assert!(matches!(sde.read_u8(), Err(Error::MismatchedLength)));
}

#[test]
fn test_invalid_char() {
    // 0xD800 is a surrogate, not a scalar value.
    let de = MoleculeDeserializer::new(&[0x00, 0xD8, 0x00, 0x00]);
    assert!(matches!(de.as_char(), Err(Error::InvalidChar)));
    // 0x110000 is past the last scalar value.
    let de = MoleculeDeserializer::new(&[0x00, 0x00, 0x11, 0x00]);
    assert!(matches!(de.as_char(), Err(Error::InvalidChar)));
    // The highest scalar value decodes.
    let de = MoleculeDeserializer::new(&[0xFF, 0xFF, 0x10, 0x00]);
    assert_eq!(de.as_char().unwrap(), '\u{10FFFF}');
}

#[test]
fn test_invalid_array() {
    let de = MoleculeDeserializer::new(&[1, 2, 3, 4, 5]);
    let mut aa = ArrayAccess::new(&de, 0);
    assert!(matches!(aa.parse(), Err(Error::InvalidArray)));
    let mut aa = ArrayAccess::new(&de, 2);
    assert!(matches!(aa.parse(), Err(Error::InvalidArray)));
}

#[test]
fn test_invalid_map() {
    // A map entry must be a table of exactly a key and a value.
    let entry = assemble_table(&vec![ser_u8(1), ser_u8(2), ser_u8(3)]);
    let outer = assemble_table(&vec![entry]);
    let de = MoleculeDeserializer::new(&outer);
    let mut ma = MappingAccess::new(&de);
    assert!(matches!(ma.parse(), Err(Error::InvalidMap)));
}

#[test]
fn test_table_count_mismatch() {
    // The serializer refuses a record whose observed field count differs
    // from the declared one.
    let mut s = MoleculeSerializer::new(false);
    let mut t = Table::new(2, false);
    t.serialize_field(ser_u8(1)).unwrap();
    assert!(matches!(t.end(&mut s), Err(Error::InvalidTableCount)));
}

#[test]
fn test_fixvec_mismatched_elements() {
    let mut s = MoleculeSerializer::new(false);
    let mut fv = FixVec::new();
    fv.serialize_element(vec![]).unwrap();
    fv.serialize_element(vec![1]).unwrap();
    assert!(matches!(fv.end(&mut s), Err(Error::AssembleFixvec)));
}

#[test]
fn test_signed_and_wide_primitives() {
    let mut s = MoleculeSerializer::new(false);
    s.serialize_i8(-2).unwrap();
    let bytes = s.into_data();
    assert_eq!(bytes, vec![0xFE]);
    assert_eq!(MoleculeDeserializer::new(&bytes).as_i8().unwrap(), -2);

    let mut s = MoleculeSerializer::new(false);
    s.serialize_i16(-2).unwrap();
    let bytes = s.into_data();
    assert_eq!(bytes, vec![0xFE, 0xFF]);
    assert_eq!(MoleculeDeserializer::new(&bytes).as_i16().unwrap(), -2);

    let mut s = MoleculeSerializer::new(false);
    s.serialize_i32(i32::MIN).unwrap();
    let bytes = s.into_data();
    assert_eq!(bytes, vec![0x00, 0x00, 0x00, 0x80]);
    assert_eq!(
        MoleculeDeserializer::new(&bytes).as_i32().unwrap(),
        i32::MIN
    );

    let mut s = MoleculeSerializer::new(false);
    s.serialize_i64(-1).unwrap();
    let bytes = s.into_data();
    assert_eq!(bytes, vec![0xFF; 8]);
    assert_eq!(MoleculeDeserializer::new(&bytes).as_i64().unwrap(), -1);

    let mut s = MoleculeSerializer::new(false);
    s.serialize_i128(i128::MIN + 1).unwrap();
    let bytes = s.into_data();
    assert_eq!(
        MoleculeDeserializer::new(&bytes).as_i128().unwrap(),
        i128::MIN + 1
    );

    let mut s = MoleculeSerializer::new(false);
    s.serialize_u128(u128::MAX - 7).unwrap();
    let bytes = s.into_data();
    assert_eq!(
        MoleculeDeserializer::new(&bytes).as_u128().unwrap(),
        u128::MAX - 7
    );

    let mut s = MoleculeSerializer::new(false);
    s.serialize_bool(true).unwrap();
    s.serialize_bool(false).unwrap();
    let bytes = s.into_data();
    assert_eq!(bytes, vec![1, 0]);
}
