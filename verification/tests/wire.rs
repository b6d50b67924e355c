use serde_molecule::error::Error;
use serde_molecule::molecule::{
    assemble_fixvec, assemble_struct, assemble_table, disassemble_fixvec, disassemble_table,
    unpack_number,
};

#[test]
fn test_disassemble_fixvec() {
    let data: [u8; 0] = [];
    let result = disassemble_fixvec(&data);
    assert!(result.is_err());
    let data = [0, 0];
    let result = disassemble_fixvec(&data);
    assert!(result.is_err());
    let data = [0u8; 4];
    let result = disassemble_fixvec(&data);
    assert_eq!(result.unwrap().len(), 0);
    let data = [0x01, 0x00, 0x00, 0x00, 0x12];
    let result = disassemble_fixvec(&data);
    assert_eq!(result.unwrap().len(), 1);
    let data = [
        0x08, 0x00, 0x00, 0x00, 0x12, 0x34, 0x56, 0x78, 0x90, 0xab, 0xcd, 0xef,
    ];
    let result = disassemble_fixvec(&data);
    assert_eq!(result.unwrap().len(), 8);
    let data = [0x01, 0x00, 0x00, 0x00, 0x23, 0x01, 0x00, 0x00];
    let result = disassemble_fixvec(&data);
    let result = result.unwrap();
    assert_eq!(result.len(), 1);
    assert_eq!(result[0].len(), 4);
    let data = [
        0x06, 0x00, 0x00, 0x00, 0x23, 0x01, 0x00, 0x00, 0x56, 0x04, 0x00, 0x00, 0x90, 0x78, 0x00,
        0x00, 0x0a, 0x00, 0x00, 0x00, 0xbc, 0x00, 0x00, 0x00, 0xef, 0x0d, 0x00, 0x00,
    ];
    let result = disassemble_fixvec(&data);
    let result = result.unwrap();
    assert_eq!(result.len(), 6);
    assert_eq!(result[5].len(), 4);
}

fn assert_fixvec_result(d1: &[u8], d2: Vec<Vec<u8>>) {
    let data: Vec<u8> = d2.into_iter().fold(vec![], |mut acc, elem| {
        acc.extend(elem);
        acc
    });
    assert_eq!(&d1[4..], &data);
}

fn test_fixvec(data: Vec<Vec<u8>>) {
    let result = assemble_fixvec(&data);
    let result = result.unwrap();
    let result2 = disassemble_fixvec(&result);
    let result2 = result2.unwrap();
    assert_fixvec_result(&result, result2);
}

#[test]
fn test_assemble_fixvec() {
    let result = assemble_fixvec(&vec![vec![], vec![1]]);
    assert!(result.is_err());

    // A vector of zero-sized elements cannot be assembled: every item of a
    // fixvec must have one common nonzero size.
    assert!(assemble_fixvec(&vec![vec![]]).is_err());
    assert!(assemble_fixvec(&vec![vec![], vec![]]).is_err());

    test_fixvec(vec![]);
    test_fixvec(vec![vec![1]]);
    test_fixvec(vec![vec![1, 2, 3], vec![4, 5, 6]]);
    test_fixvec(vec![vec![1], vec![2], vec![3]]);
    test_fixvec(vec![vec![1, 2, 3], vec![4, 5, 6], vec![7, 8, 9]]);
}

#[test]
fn test_disassemble_table() {
    let data = [];
    let result = disassemble_table(&data);
    assert!(result.is_err());

    let data = [1];
    let result = disassemble_table(&data);
    assert!(result.is_err());

    let data = [1, 1, 1, 1, 1];
    let result = disassemble_table(&data);
    assert!(result.is_err());

    let data = [1, 1, 1, 1, 1, 1, 1];
    let result = disassemble_table(&data);
    assert!(result.is_err());

    let data = [0x04, 0x00, 0x00, 0x00];
    let result = disassemble_table(&data);
    let result = result.unwrap();
    assert_eq!(result.len(), 0);

    let data = [
        0x0e, 0x00, 0x00, 0x00, 0x08, 0x00, 0x00, 0x00, 0x02, 0x00, 0x00, 0x00, 0x12, 0x34,
    ];
    let result = disassemble_table(&data);
    let result = result.unwrap();
    assert_eq!(result.len(), 1);
    assert_eq!(result[0].len(), 6);

    let data = [
        0x34, 0x00, 0x00, 0x00, 0x18, 0x00, 0x00, 0x00, 0x1e, 0x00, 0x00, 0x00, 0x22, 0x00, 0x00,
        0x00, 0x28, 0x00, 0x00, 0x00, 0x2d, 0x00, 0x00, 0x00, 0x02, 0x00, 0x00, 0x00, 0x12, 0x34,
        0x00, 0x00, 0x00, 0x00, 0x02, 0x00, 0x00, 0x00, 0x05, 0x67, 0x01, 0x00, 0x00, 0x00, 0x89,
        0x03, 0x00, 0x00, 0x00, 0xab, 0xcd, 0xef,
    ];
    let result = disassemble_table(&data);
    let result = result.unwrap();
    assert_eq!(result.len(), 5);
    assert_eq!(result[0].len(), 6);
    assert_eq!(result[1].len(), 4);
    assert_eq!(result[2].len(), 6);
    assert_eq!(result[3].len(), 5);
    assert_eq!(result[4].len(), 7);
}

fn test_table(data: &Vec<Vec<u8>>) {
    let result1 = assemble_table(data);
    let result2 = disassemble_table(&result1);
    let result2 = result2.unwrap();
    assert_eq!(data.len(), result2.len());
    for (index, item) in data.iter().enumerate() {
        assert_eq!(item, &result2[index]);
    }
}

#[test]
fn test_assemble_table() {
    test_table(&vec![]);
    test_table(&vec![vec![]]);
    test_table(&vec![vec![1]]);
    test_table(&vec![vec![1, 2, 3]]);
    test_table(&vec![vec![], vec![]]);
    test_table(&vec![vec![], vec![1]]);
    test_table(&vec![vec![1], vec![]]);
    test_table(&vec![vec![], vec![1], vec![2]]);
    test_table(&vec![vec![1], vec![], vec![2]]);
    test_table(&vec![vec![1], vec![2], vec![]]);
    test_table(&vec![vec![1], vec![2], vec![3]]);
    test_table(&vec![vec![1, 2, 3], vec![4, 5, 6], vec![7, 8, 9]]);
}

#[test]
fn test_empty_fixvec() {
    let bytes = assemble_fixvec(&vec![]).unwrap();
    assert_eq!(bytes, vec![0x00, 0x00, 0x00, 0x00]);
}

#[test]
fn test_empty_table() {
    let parts: Vec<Vec<u8>> = vec![];
    let bytes = assemble_table(&parts);
    assert_eq!(bytes, vec![0x04, 0x00, 0x00, 0x00]);
}

#[test]
fn test_assemble_struct_concatenates() {
    let bytes = assemble_struct(vec![vec![1], vec![2, 3], vec![], vec![4, 5, 6]]);
    assert_eq!(bytes, vec![1, 2, 3, 4, 5, 6]);
}

#[test]
fn test_unpack_number() {
    let data = [0x78, 0x56, 0x34, 0x12, 0xff];
    assert_eq!(unpack_number(&data, 0).unwrap(), 0x12345678);
    assert!(matches!(
        unpack_number(&data, 2),
        Err(Error::LengthNotEnough)
    ));
}

#[test]
fn test_table_header_validity() {
    // Assemble a table of three parts of different sizes and check the
    // header against the wire-format invariants.
    let parts = vec![vec![9u8], vec![], vec![7u8, 8u8, 9u8]];
    let bytes = assemble_table(&parts);
    let total = unpack_number(&bytes, 0).unwrap();
    assert_eq!(total, bytes.len());
    // The first offset is 4 * (count + 1), a multiple of four.
    let first = unpack_number(&bytes, 4).unwrap();
    assert_eq!(first, 16);
    assert_eq!(first % 4, 0);
    // The offsets never decrease, and the last field ends at the total.
    let o2 = unpack_number(&bytes, 8).unwrap();
    let o3 = unpack_number(&bytes, 12).unwrap();
    assert!(first <= o2 && o2 <= o3);
    assert_eq!(o3 + parts[2].len(), total);
}

#[test]
fn test_table_rejection() {
    // Total-size word disagreeing with the buffer length.
    let data = [0x05, 0x00, 0x00, 0x00];
    assert!(matches!(
        disassemble_table(&data),
        Err(Error::InvalidTableLength)
    ));
    // Total of 5..7 can never hold an offset word.
    let data = [0x05, 0x00, 0x00, 0x00, 0x00];
    assert!(matches!(
        disassemble_table(&data),
        Err(Error::InvalidTableLength)
    ));
    // First offset not a multiple of four.
    let data = [0x09, 0x00, 0x00, 0x00, 0x09, 0x00, 0x00, 0x00, 0x00];
    assert!(matches!(
        disassemble_table(&data),
        Err(Error::InvalidTableHeader)
    ));
    // First offset below the minimum header size.
    let data = [0x08, 0x00, 0x00, 0x00, 0x04, 0x00, 0x00, 0x00];
    assert!(matches!(
        disassemble_table(&data),
        Err(Error::InvalidTableHeader)
    ));
    // First offset past the end of the buffer.
    let data = [0x08, 0x00, 0x00, 0x00, 0x0c, 0x00, 0x00, 0x00];
    assert!(matches!(
        disassemble_table(&data),
        Err(Error::InvalidTableHeader)
    ));
    // Decreasing offsets.
    let data = [
        0x0e, 0x00, 0x00, 0x00, 0x0c, 0x00, 0x00, 0x00, 0x0b, 0x00, 0x00, 0x00, 0x01, 0x02,
    ];
    assert!(matches!(disassemble_table(&data), Err(Error::InvalidTable)));
    // An offset past the end of the buffer.
    let data = [
        0x0e, 0x00, 0x00, 0x00, 0x0c, 0x00, 0x00, 0x00, 0xff, 0x00, 0x00, 0x00, 0x01, 0x02,
    ];
    assert!(matches!(disassemble_table(&data), Err(Error::InvalidTable)));
}

#[test]
fn test_fixvec_rejection() {
    // A count with no items following it.
    let data = [0x01, 0x00, 0x00, 0x00];
    assert!(matches!(
        disassemble_fixvec(&data),
        Err(Error::InvalidFixvec)
    ));
    // A remainder that the count does not divide.
    let data = [0x02, 0x00, 0x00, 0x00, 0x01, 0x02, 0x03];
    assert!(matches!(
        disassemble_fixvec(&data),
        Err(Error::InvalidFixvec)
    ));
}
