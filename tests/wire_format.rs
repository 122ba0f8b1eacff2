use memdb_lib::server::HeapOperationKind;
use memdb_lib::wire::{encode_frame, encode_marker, encode_operation, MarkerRecord, OperationRecord};

fn varint(mut v: u64) -> Vec<u8> {
    let mut out = Vec::new();
    loop {
        if v < 128 {
            out.push(v as u8);
            return out;
        }
        out.push((v % 128 + 128) as u8);
        v /= 128;
    }
}

fn length_delimited(number: u64, bytes: &[u8]) -> Vec<u8> {
    let mut out = varint(number * 8 + 2);
    out.extend(varint(bytes.len() as u64));
    out.extend_from_slice(bytes);
    out
}

fn operation(micros: u64, address: u64, size: u64, thread_id: u64, kind: HeapOperationKind, backtrace: &str) -> OperationRecord {
    OperationRecord {
        micros_since_server_start: micros,
        address,
        size,
        thread_id,
        kind,
        backtrace: backtrace.to_string(),
    }
}

fn marker(name: &str, index: u64, first_operation_seq_no: u64) -> MarkerRecord {
    MarkerRecord { name: name.to_string(), index, first_operation_seq_no }
}

#[test]
fn empty_frame_is_an_empty_batch() {
    assert_eq!(encode_frame(&vec![], &vec![]), vec![0u8]);
}

#[test]
fn operation_bytes_are_exact() {
    let op = operation(5, 0x1000, 16, 7, HeapOperationKind::Alloc, "");
    assert_eq!(
        encode_operation(&op),
        vec![0x08, 0x05, 0x10, 0x80, 0x20, 0x18, 0x10, 0x20, 0x07, 0x28, 0x00, 0x32, 0x00]
    );
}

#[test]
fn dealloc_and_backtrace_bytes() {
    let op = operation(0, 1, 2, 3, HeapOperationKind::Dealloc, "ab");
    assert_eq!(
        encode_operation(&op),
        vec![0x08, 0x00, 0x10, 0x01, 0x18, 0x02, 0x20, 0x03, 0x28, 0x01, 0x32, 0x02, b'a', b'b']
    );
}

#[test]
fn multi_byte_varints() {
    let op = operation(300, u64::MAX, 0, 0, HeapOperationKind::Alloc, "");
    let bytes = encode_operation(&op);
    assert_eq!(&bytes[0..3], &[0x08, 0xAC, 0x02]);
    assert_eq!(bytes[3], 0x10);
    assert_eq!(&bytes[4..14], &[0xFF, 0xFF, 0xFF, 0xFF, 0xFF, 0xFF, 0xFF, 0xFF, 0xFF, 0x01]);
}

#[test]
fn backtrace_is_utf8() {
    let op = operation(0, 0, 0, 0, HeapOperationKind::Alloc, "é");
    let bytes = encode_operation(&op);
    assert_eq!(&bytes[bytes.len() - 3..], &[0x02, 0xC3, 0xA9]);
}

#[test]
fn marker_bytes_are_exact() {
    assert_eq!(
        encode_marker(&marker("m", 0, 0)),
        vec![0x0A, 0x01, b'm', 0x10, 0x00, 0x18, 0x00]
    );
    assert_eq!(
        encode_marker(&marker("phase", 2, 130)),
        vec![0x0A, 0x05, b'p', b'h', b'a', b's', b'e', 0x10, 0x02, 0x18, 0x82, 0x01]
    );
}

#[test]
fn frame_is_length_prefixed_and_ordered() {
    let ops = vec![
        operation(1, 1, 8, 9, HeapOperationKind::Alloc, ""),
        operation(2, 2, 8, 9, HeapOperationKind::Dealloc, ""),
    ];
    let markers = vec![marker("m", 0, 0)];
    let mut body = Vec::new();
    body.extend(length_delimited(1, &encode_operation(&ops[0])));
    body.extend(length_delimited(1, &encode_operation(&ops[1])));
    body.extend(length_delimited(2, &encode_marker(&markers[0])));
    let mut expected = varint(body.len() as u64);
    expected.extend(body);
    assert_eq!(encode_frame(&ops, &markers), expected);
}

#[test]
fn smoke_frame_bytes() {
    let ops = vec![operation(5, 0x1000, 16, 7, HeapOperationKind::Alloc, "")];
    let markers = vec![marker("m", 0, 0)];
    let frame = encode_frame(&ops, &markers);
    let mut expected = vec![24u8, 0x0A, 13];
    expected.extend([0x08, 0x05, 0x10, 0x80, 0x20, 0x18, 0x10, 0x20, 0x07, 0x28, 0x00, 0x32, 0x00]);
    expected.extend([0x12, 7, 0x0A, 0x01, b'm', 0x10, 0x00, 0x18, 0x00]);
    assert_eq!(frame, expected);
}
