use cdsym::codec::{decode_symbols, deserialize_symbols, encode_symbols, serialize_symbols};
use cdsym::symbols::DebugSymbolInfo;

fn rec(address: u32, name: &str, noreturn: bool) -> DebugSymbolInfo {
    DebugSymbolInfo { address, name: name.to_owned(), noreturn }
}

fn assert_same(a: &[DebugSymbolInfo], b: &[DebugSymbolInfo]) {
    assert_eq!(a.len(), b.len());
    for i in 0..a.len() {
        assert_eq!(a[i].address, b[i].address);
        assert_eq!(a[i].name, b[i].name);
        assert_eq!(a[i].noreturn, b[i].noreturn);
    }
}

#[test]
fn serialized_bytes_are_exact() {
    let ser = serialize_symbols(&vec![rec(0x01020304, "A", true)]);
    let expected: Vec<u8> = vec![
        1, 0, 0, 0, 0, 0, 0, 0, // record count
        4, 3, 2, 1, // address, little endian
        1, // never-returns flag
        1, 0, 0, 0, 0, 0, 0, 0, // name length in characters
        65, 0, 0, 0, // 'A'
    ];
    assert_eq!(ser, expected);
}

#[test]
fn serialize_then_deserialize_is_identity() {
    let v = vec![
        rec(0x1000, "Foo", false),
        rec(0xFFFF_FFFF, "", true),
        rec(0, "with space and unicode \u{2603}", false),
    ];
    let ser = serialize_symbols(&v);
    let back = deserialize_symbols(&ser).expect("own serialization must parse");
    assert_same(&v, &back);
}

#[test]
fn empty_table_round_trips() {
    let v: Vec<DebugSymbolInfo> = vec![];
    let ser = serialize_symbols(&v);
    assert_eq!(ser, vec![0u8; 8]);
    let back = deserialize_symbols(&ser).expect("empty table must parse");
    assert_eq!(back.len(), 0);
}

#[test]
fn encode_then_decode_is_identity() {
    let v = vec![rec(0x2000, "Alpha", true), rec(0x3000, "Beta", false)];
    let blob = encode_symbols(&v).expect("encoding must succeed");
    // The transport blob is compressed: it is not the raw serialization.
    assert_ne!(blob, serialize_symbols(&v));
    let back = decode_symbols(&blob).expect("own encoding must decode");
    assert_same(&v, &back);
}

#[test]
fn trailing_bytes_are_refused() {
    let mut ser = serialize_symbols(&vec![rec(1, "x", false)]);
    ser.push(0);
    assert!(deserialize_symbols(&ser).is_none());
}

#[test]
fn truncated_input_is_refused() {
    let ser = serialize_symbols(&vec![rec(1, "x", false)]);
    let cut = ser[..ser.len() - 1].to_vec();
    assert!(deserialize_symbols(&cut).is_none());
}

#[test]
fn bad_flag_byte_is_refused() {
    let mut ser = serialize_symbols(&vec![rec(1, "x", false)]);
    // The flag byte sits after the count and the address.
    ser[12] = 2;
    assert!(deserialize_symbols(&ser).is_none());
}

#[test]
fn surrogate_code_point_is_refused() {
    let mut bytes: Vec<u8> = vec![1, 0, 0, 0, 0, 0, 0, 0];
    bytes.extend_from_slice(&[0, 0, 0, 0]); // address
    bytes.push(0); // flag
    bytes.extend_from_slice(&[1, 0, 0, 0, 0, 0, 0, 0]); // one character
    bytes.extend_from_slice(&[0x00, 0xD8, 0x00, 0x00]); // a surrogate value
    assert!(deserialize_symbols(&bytes).is_none());
}

#[test]
fn garbage_blob_is_refused() {
    assert!(decode_symbols(&vec![1, 2, 3, 4, 5]).is_none());
}

#[test]
fn compressed_garbage_is_refused() {
    // A well-formed compressed frame whose payload is not a symbol table.
    let frame = zstd::encode_all(&b"hello world"[..], 3).expect("compression works");
    assert!(decode_symbols(&frame).is_none());
}
