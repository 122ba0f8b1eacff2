//! Framing of a batch of heap operations and markers.
//!
//! A frame is the base-128 varint of the body's length followed by the body, which is
//! a protocol-buffer message: every operation as field 1 and every marker as field 2,
//! each a length-delimited sub-message. An operation carries the fields
//! `micros_since_server_start` (1), `address` (2), `size` (3), `thread_id` (4), `kind`
//! (5, 0 for an allocation and 1 for a deallocation) and `backtrace` (6, UTF-8); a
//! marker carries `name` (1, UTF-8), `index` (2) and `first_operation_seq_no` (3).
//! Integers are written as unsigned varints.
use crate::server::HeapOperationKind;
use vstd::prelude::*;
use vstd::utf8::{decode_utf8, encode_utf8, encode_utf8_decode_utf8};

verus! {

/// The base-128 varint of `v`: seven bits per byte, least significant first, the high
/// bit set on every byte but the last.
pub open spec fn varint(v: nat) -> Seq<u8>
    decreases v,
{
    if v < 128 {
        seq![v as u8]
    } else {
        seq![(v % 128 + 128) as u8] + varint(v / 128)
    }
}

/// Relies on protobuf's `CodedOutputStream::write_raw_varint64` (and `flush`) on a
/// `Vec` target: it appends the base-128 varint of `value` to the vector.
#[verifier::external_body]
fn append_varint(out: &mut Vec<u8>, value: u64)
    ensures
        final(out)@ == old(out)@ + varint(value as nat),
{
    let mut stream = protobuf::CodedOutputStream::vec(out);
    let _ = stream.write_raw_varint64(value);
    let _ = stream.flush();
}

/// Reads a varint at the start of `s`: its value and the number of bytes it took.
pub open spec fn parse_varint(s: Seq<u8>) -> Option<(nat, nat)>
    decreases s.len(),
{
    if s.len() == 0 {
        None
    } else if s[0] < 128 {
        Some((s[0] as nat, 1))
    } else {
        match parse_varint(s.drop_first()) {
            Some((v, n)) => Some(((s[0] - 128) as nat + 128 * v, n + 1)),
            None => None,
        }
    }
}

pub proof fn lemma_parse_varint(v: nat, rest: Seq<u8>)
    ensures
        parse_varint(varint(v) + rest) == Some((v, varint(v).len())),
    decreases v,
{
    let s = varint(v) + rest;
    if v < 128 {
        assert(s[0] == v as u8);
    } else {
        assert(s[0] == (v % 128 + 128) as u8);
        assert(s.drop_first() =~= varint(v / 128) + rest);
        lemma_parse_varint(v / 128, rest);
        assert((v % 128) + 128 * (v / 128) == v) by (nonlinear_arith);
    }
}

pub proof fn lemma_varint_nonempty(v: nat)
    ensures
        varint(v).len() >= 1,
    decreases v,
{
    if v >= 128 {
        lemma_varint_nonempty(v / 128);
    }
}

/// The value of one field of a protocol-buffer message.
pub enum FieldValue {
    Varint(nat),
    Bytes(Seq<u8>),
}

/// One field of a protocol-buffer message: its number and its value.
pub struct Field {
    pub number: nat,
    pub value: FieldValue,
}

/// A field as it stands on the wire: its key (number and wire type), then its value.
pub open spec fn encode_field(f: Field) -> Seq<u8> {
    match f.value {
        FieldValue::Varint(v) => varint(f.number * 8) + varint(v),
        FieldValue::Bytes(b) => varint(f.number * 8 + 2) + varint(b.len()) + b,
    }
}

pub open spec fn encode_fields(fs: Seq<Field>) -> Seq<u8>
    decreases fs.len(),
{
    if fs.len() == 0 {
        Seq::empty()
    } else {
        encode_field(fs[0]) + encode_fields(fs.drop_first())
    }
}

/// Reads one field at the start of `s`: the field and the number of bytes it took.
/// Only the varint and the length-delimited wire types are read.
pub open spec fn parse_field(s: Seq<u8>) -> Option<(Field, nat)> {
    match parse_varint(s) {
        Some((key, k)) => {
            let rest = s.skip(k as int);
            match parse_varint(rest) {
                Some((v, n)) => {
                    if key % 8 == 0 {
                        Some((Field { number: key / 8, value: FieldValue::Varint(v) }, k + n))
                    } else if key % 8 == 2 && k + n + v <= s.len() {
                        let b = s.subrange((k + n) as int, (k + n + v) as int);
                        Some((Field { number: key / 8, value: FieldValue::Bytes(b) }, k + n + v))
                    } else {
                        None
                    }
                },
                None => None,
            }
        },
        None => None,
    }
}

/// Reads the fields of a whole message.
pub open spec fn parse_fields(s: Seq<u8>) -> Option<Seq<Field>>
    decreases s.len(),
{
    if s.len() == 0 {
        Some(Seq::empty())
    } else {
        match parse_field(s) {
            Some((f, n)) => {
                if 0 < n <= s.len() {
                    match parse_fields(s.skip(n as int)) {
                        Some(fs) => Some(seq![f] + fs),
                        None => None,
                    }
                } else {
                    None
                }
            },
            None => None,
        }
    }
}

pub proof fn lemma_parse_field(f: Field, rest: Seq<u8>)
    ensures
        parse_field(encode_field(f) + rest) == Some((f, encode_field(f).len())),
{
    let s = encode_field(f) + rest;
    match f.value {
        FieldValue::Varint(v) => {
            let key = f.number * 8;
            assert((key % 8) == 0 && key / 8 == f.number) by (nonlinear_arith)
                requires key == f.number * 8;
            assert(s =~= varint(key) + (varint(v) + rest));
            lemma_parse_varint(key, varint(v) + rest);
            assert(s.skip(varint(key).len() as int) =~= varint(v) + rest);
            lemma_parse_varint(v, rest);
        },
        FieldValue::Bytes(b) => {
            let key = f.number * 8 + 2;
            assert((key % 8) == 2 && key / 8 == f.number) by (nonlinear_arith)
                requires key == f.number * 8 + 2;
            let k = varint(key).len();
            let n = varint(b.len()).len();
            assert(s =~= varint(key) + (varint(b.len()) + (b + rest)));
            lemma_parse_varint(key, varint(b.len()) + (b + rest));
            assert(s.skip(k as int) =~= varint(b.len()) + (b + rest));
            lemma_parse_varint(b.len(), b + rest);
            assert(s.subrange((k + n) as int, (k + n + b.len()) as int) =~= b);
        },
    }
}

pub proof fn lemma_parse_fields(fs: Seq<Field>)
    ensures
        parse_fields(encode_fields(fs)) == Some(fs),
    decreases fs.len(),
{
    if fs.len() > 0 {
        let s = encode_fields(fs);
        let head = encode_field(fs[0]);
        let tail = encode_fields(fs.drop_first());
        lemma_parse_field(fs[0], tail);
        match fs[0].value {
            FieldValue::Varint(v) => lemma_varint_nonempty(fs[0].number * 8),
            FieldValue::Bytes(b) => lemma_varint_nonempty(fs[0].number * 8 + 2),
        }
        assert(s.skip(head.len() as int) =~= tail);
        lemma_parse_fields(fs.drop_first());
        assert(seq![fs[0]] + fs.drop_first() =~= fs);
    }
}

pub proof fn lemma_encode_fields_push(fs: Seq<Field>, f: Field)
    ensures
        encode_fields(fs.push(f)) == encode_fields(fs) + encode_field(f),
    decreases fs.len(),
{
    if fs.len() == 0 {
        assert(fs.push(f).drop_first() =~= fs);
        assert(fs.push(f)[0] == f);
        assert(encode_fields(fs) == Seq::<u8>::empty());
        assert(encode_fields(fs.push(f)) =~= encode_field(f) + encode_fields(fs));
    } else {
        assert(fs.push(f).drop_first() =~= fs.drop_first().push(f));
        lemma_encode_fields_push(fs.drop_first(), f);
        assert(encode_fields(fs.push(f)) =~= encode_fields(fs) + encode_field(f));
    }
}

/// A heap operation as it goes on the wire.
pub struct OperationRecord {
    pub micros_since_server_start: u64,
    pub address: u64,
    pub size: u64,
    pub thread_id: u64,
    pub kind: HeapOperationKind,
    pub backtrace: String,
}

/// A marker as it goes on the wire.
pub struct MarkerRecord {
    pub name: String,
    pub index: u64,
    pub first_operation_seq_no: u64,
}

pub struct OperationView {
    pub micros_since_server_start: nat,
    pub address: nat,
    pub size: nat,
    pub thread_id: nat,
    pub kind: HeapOperationKind,
    pub backtrace: Seq<char>,
}

pub struct MarkerView {
    pub name: Seq<char>,
    pub index: nat,
    pub first_operation_seq_no: nat,
}

/// The operations and markers of one frame.
pub struct Batch {
    pub operations: Seq<OperationView>,
    pub markers: Seq<MarkerView>,
}

impl View for OperationRecord {
    type V = OperationView;

    open spec fn view(&self) -> OperationView {
        OperationView {
            micros_since_server_start: self.micros_since_server_start as nat,
            address: self.address as nat,
            size: self.size as nat,
            thread_id: self.thread_id as nat,
            kind: self.kind,
            backtrace: self.backtrace@,
        }
    }
}

impl View for MarkerRecord {
    type V = MarkerView;

    open spec fn view(&self) -> MarkerView {
        MarkerView {
            name: self.name@,
            index: self.index as nat,
            first_operation_seq_no: self.first_operation_seq_no as nat,
        }
    }
}

pub open spec fn kind_code(kind: HeapOperationKind) -> nat {
    match kind {
        HeapOperationKind::Alloc => 0,
        HeapOperationKind::Dealloc => 1,
    }
}

pub open spec fn operation_fields(op: OperationView) -> Seq<Field> {
    seq![
        Field { number: 1, value: FieldValue::Varint(op.micros_since_server_start) },
        Field { number: 2, value: FieldValue::Varint(op.address) },
        Field { number: 3, value: FieldValue::Varint(op.size) },
        Field { number: 4, value: FieldValue::Varint(op.thread_id) },
        Field { number: 5, value: FieldValue::Varint(kind_code(op.kind)) },
        Field { number: 6, value: FieldValue::Bytes(encode_utf8(op.backtrace)) },
    ]
}

pub open spec fn marker_fields(m: MarkerView) -> Seq<Field> {
    seq![
        Field { number: 1, value: FieldValue::Bytes(encode_utf8(m.name)) },
        Field { number: 2, value: FieldValue::Varint(m.index) },
        Field { number: 3, value: FieldValue::Varint(m.first_operation_seq_no) },
    ]
}

/// The operation that a receiver starts from before it reads any field.
pub open spec fn empty_operation() -> OperationView {
    OperationView {
        micros_since_server_start: 0,
        address: 0,
        size: 0,
        thread_id: 0,
        kind: HeapOperationKind::Alloc,
        backtrace: Seq::empty(),
    }
}

pub open spec fn empty_marker() -> MarkerView {
    MarkerView { name: Seq::empty(), index: 0, first_operation_seq_no: 0 }
}

/// How a receiver takes one field into an operation: a later field overrides an
/// earlier one of the same number, and a field of another number is skipped.
pub open spec fn read_operation_field(op: OperationView, f: Field) -> OperationView {
    match f.value {
        FieldValue::Varint(v) => {
            if f.number == 1 {
                OperationView { micros_since_server_start: v, ..op }
            } else if f.number == 2 {
                OperationView { address: v, ..op }
            } else if f.number == 3 {
                OperationView { size: v, ..op }
            } else if f.number == 4 {
                OperationView { thread_id: v, ..op }
            } else if f.number == 5 {
                OperationView {
                    kind: if v == 1 {
                        HeapOperationKind::Dealloc
                    } else {
                        HeapOperationKind::Alloc
                    },
                    ..op
                }
            } else {
                op
            }
        },
        FieldValue::Bytes(b) => {
            if f.number == 6 {
                OperationView { backtrace: decode_utf8(b), ..op }
            } else {
                op
            }
        },
    }
}

pub open spec fn read_marker_field(m: MarkerView, f: Field) -> MarkerView {
    match f.value {
        FieldValue::Varint(v) => {
            if f.number == 2 {
                MarkerView { index: v, ..m }
            } else if f.number == 3 {
                MarkerView { first_operation_seq_no: v, ..m }
            } else {
                m
            }
        },
        FieldValue::Bytes(b) => {
            if f.number == 1 {
                MarkerView { name: decode_utf8(b), ..m }
            } else {
                m
            }
        },
    }
}

pub open spec fn read_operation_fields(op: OperationView, fs: Seq<Field>) -> OperationView
    decreases fs.len(),
{
    if fs.len() == 0 {
        op
    } else {
        read_operation_fields(read_operation_field(op, fs[0]), fs.drop_first())
    }
}

pub open spec fn read_marker_fields(m: MarkerView, fs: Seq<Field>) -> MarkerView
    decreases fs.len(),
{
    if fs.len() == 0 {
        m
    } else {
        read_marker_fields(read_marker_field(m, fs[0]), fs.drop_first())
    }
}

/// How a receiver reads an operation sub-message.
pub open spec fn decode_operation(b: Seq<u8>) -> Option<OperationView> {
    match parse_fields(b) {
        Some(fs) => Some(read_operation_fields(empty_operation(), fs)),
        None => None,
    }
}

/// How a receiver reads a marker sub-message.
pub open spec fn decode_marker(b: Seq<u8>) -> Option<MarkerView> {
    match parse_fields(b) {
        Some(fs) => Some(read_marker_fields(empty_marker(), fs)),
        None => None,
    }
}

pub proof fn lemma_decode_operation(op: OperationView)
    ensures
        decode_operation(encode_fields(operation_fields(op))) == Some(op),
{
    let fs = operation_fields(op);
    lemma_parse_fields(fs);
    encode_utf8_decode_utf8(op.backtrace);
    let a1 = read_operation_field(empty_operation(), fs[0]);
    let a2 = read_operation_field(a1, fs[1]);
    let a3 = read_operation_field(a2, fs[2]);
    let a4 = read_operation_field(a3, fs[3]);
    let a5 = read_operation_field(a4, fs[4]);
    let a6 = read_operation_field(a5, fs[5]);
    assert(fs.drop_first() =~= fs.skip(1));
    assert(fs.skip(1).drop_first() =~= fs.skip(2));
    assert(fs.skip(2).drop_first() =~= fs.skip(3));
    assert(fs.skip(3).drop_first() =~= fs.skip(4));
    assert(fs.skip(4).drop_first() =~= fs.skip(5));
    assert(fs.skip(5).drop_first() =~= fs.skip(6));
    assert(fs.skip(6).len() == 0);
    assert(read_operation_fields(a6, fs.skip(6)) == a6);
    assert(read_operation_fields(a5, fs.skip(5)) == a6);
    assert(read_operation_fields(a4, fs.skip(4)) == a6);
    assert(read_operation_fields(a3, fs.skip(3)) == a6);
    assert(read_operation_fields(a2, fs.skip(2)) == a6);
    assert(read_operation_fields(a1, fs.skip(1)) == a6);
    assert(a6 == op);
}

pub proof fn lemma_decode_marker(m: MarkerView)
    ensures
        decode_marker(encode_fields(marker_fields(m))) == Some(m),
{
    let fs = marker_fields(m);
    lemma_parse_fields(fs);
    encode_utf8_decode_utf8(m.name);
    let a1 = read_marker_field(empty_marker(), fs[0]);
    let a2 = read_marker_field(a1, fs[1]);
    let a3 = read_marker_field(a2, fs[2]);
    assert(fs.drop_first() =~= fs.skip(1));
    assert(fs.skip(1).drop_first() =~= fs.skip(2));
    assert(fs.skip(2).drop_first() =~= fs.skip(3));
    assert(fs.skip(3).len() == 0);
    assert(read_marker_fields(a3, fs.skip(3)) == a3);
    assert(read_marker_fields(a2, fs.skip(2)) == a3);
    assert(read_marker_fields(a1, fs.skip(1)) == a3);
}

/// An operation as a field of the frame's body.
pub open spec fn operation_entry(op: OperationView) -> Field {
    Field { number: 1, value: FieldValue::Bytes(encode_fields(operation_fields(op))) }
}

/// A marker as a field of the frame's body.
pub open spec fn marker_entry(m: MarkerView) -> Field {
    Field { number: 2, value: FieldValue::Bytes(encode_fields(marker_fields(m))) }
}

pub open spec fn batch_fields(b: Batch) -> Seq<Field> {
    b.operations.map_values(|op: OperationView| operation_entry(op)) + b.markers.map_values(
        |m: MarkerView| marker_entry(m),
    )
}

pub open spec fn frame_body(b: Batch) -> Seq<u8> {
    encode_fields(batch_fields(b))
}

/// The bytes of the frame that carries `b`.
pub open spec fn frame_bytes(b: Batch) -> Seq<u8> {
    varint(frame_body(b).len()) + frame_body(b)
}

pub open spec fn empty_batch() -> Batch {
    Batch { operations: Seq::empty(), markers: Seq::empty() }
}

/// How a receiver takes the fields of a frame's body into a batch, in order.
pub open spec fn read_batch_fields(acc: Batch, fs: Seq<Field>) -> Option<Batch>
    decreases fs.len(),
{
    if fs.len() == 0 {
        Some(acc)
    } else {
        let f = fs[0];
        match f.value {
            FieldValue::Bytes(b) => {
                if f.number == 1 {
                    match decode_operation(b) {
                        Some(op) => read_batch_fields(
                            Batch { operations: acc.operations.push(op), ..acc },
                            fs.drop_first(),
                        ),
                        None => None,
                    }
                } else if f.number == 2 {
                    match decode_marker(b) {
                        Some(m) => read_batch_fields(
                            Batch { markers: acc.markers.push(m), ..acc },
                            fs.drop_first(),
                        ),
                        None => None,
                    }
                } else {
                    read_batch_fields(acc, fs.drop_first())
                }
            },
            FieldValue::Varint(_) => read_batch_fields(acc, fs.drop_first()),
        }
    }
}

/// How a receiver reads one frame at the start of `s`: the batch and the number of bytes
/// the frame took.
pub open spec fn decode_frame(s: Seq<u8>) -> Option<(Batch, nat)> {
    match parse_varint(s) {
        Some((len, k)) => {
            if k + len <= s.len() {
                match parse_fields(s.subrange(k as int, (k + len) as int)) {
                    Some(fs) => match read_batch_fields(empty_batch(), fs) {
                        Some(b) => Some((b, k + len)),
                        None => None,
                    },
                    None => None,
                }
            } else {
                None
            }
        },
        None => None,
    }
}

proof fn lemma_read_operation_entries(acc: Batch, ops: Seq<OperationView>, rest: Seq<Field>)
    ensures
        read_batch_fields(acc, ops.map_values(|op: OperationView| operation_entry(op)) + rest)
            == read_batch_fields(Batch { operations: acc.operations + ops, ..acc }, rest),
    decreases ops.len(),
{
    let fs = ops.map_values(|op: OperationView| operation_entry(op)) + rest;
    if ops.len() == 0 {
        assert(fs =~= rest);
        assert(acc.operations + ops =~= acc.operations);
    } else {
        lemma_decode_operation(ops[0]);
        let next = Batch { operations: acc.operations.push(ops[0]), ..acc };
        let tail = ops.drop_first();
        assert(fs.drop_first() =~= tail.map_values(|op: OperationView| operation_entry(op))
            + rest);
        lemma_read_operation_entries(next, tail, rest);
        assert(next.operations + tail =~= acc.operations + ops);
    }
}

proof fn lemma_read_marker_entries(acc: Batch, ms: Seq<MarkerView>)
    ensures
        read_batch_fields(acc, ms.map_values(|m: MarkerView| marker_entry(m))) == Some(
            Batch { markers: acc.markers + ms, ..acc },
        ),
    decreases ms.len(),
{
    let fs = ms.map_values(|m: MarkerView| marker_entry(m));
    if ms.len() == 0 {
        assert(acc.markers + ms =~= acc.markers);
    } else {
        lemma_decode_marker(ms[0]);
        let next = Batch { markers: acc.markers.push(ms[0]), ..acc };
        let tail = ms.drop_first();
        assert(fs.drop_first() =~= tail.map_values(|m: MarkerView| marker_entry(m)));
        lemma_read_marker_entries(next, tail);
        assert(next.markers + tail =~= acc.markers + ms);
    }
}

/// A frame read back by a receiver yields the operations and markers it was made from,
/// every field equal, in the same order; and the frame delimits itself: the receiver
/// finds where it ends whatever bytes follow it.
pub proof fn lemma_frame_round_trip(b: Batch, rest: Seq<u8>)
    ensures
        decode_frame(frame_bytes(b) + rest) == Some((b, frame_bytes(b).len())),
{
    let body = frame_body(b);
    let s = frame_bytes(b) + rest;
    let k = varint(body.len()).len();
    assert(s =~= varint(body.len()) + (body + rest));
    lemma_parse_varint(body.len(), body + rest);
    assert(s.subrange(k as int, (k + body.len()) as int) =~= body);
    lemma_parse_fields(batch_fields(b));
    lemma_read_operation_entries(
        empty_batch(),
        b.operations,
        b.markers.map_values(|m: MarkerView| marker_entry(m)),
    );
    let after_ops = Batch { operations: empty_batch().operations + b.operations, ..empty_batch() };
    lemma_read_marker_entries(after_ops, b.markers);
    assert(empty_batch().operations + b.operations =~= b.operations);
    assert(empty_batch().markers + b.markers =~= b.markers);
}

/// The frame of an empty batch reads back as an empty batch, not as an error.
pub proof fn lemma_empty_frame(rest: Seq<u8>)
    ensures
        decode_frame(frame_bytes(empty_batch()) + rest) == Some(
            (empty_batch(), frame_bytes(empty_batch()).len()),
        ),
        frame_bytes(empty_batch()) == seq![0u8],
{
    lemma_frame_round_trip(empty_batch(), rest);
    assert(batch_fields(empty_batch()) =~= Seq::<Field>::empty());
}

/// The batch that the given records make.
pub open spec fn batch_of(operations: Seq<OperationRecord>, markers: Seq<MarkerRecord>) -> Batch {
    Batch {
        operations: operations.map_values(|op: OperationRecord| op@),
        markers: markers.map_values(|m: MarkerRecord| m@),
    }
}

fn append_bytes(out: &mut Vec<u8>, bytes: &[u8])
    ensures
        final(out)@ == old(out)@ + bytes@,
{
    let ghost start = out@;
    let mut i: usize = 0;
    while i < bytes.len()
        invariant
            i <= bytes@.len(),
            out@ == start + bytes@.take(i as int),
        decreases bytes@.len() - i,
    {
        out.push(bytes[i]);
        i = i + 1;
        assert(out@ =~= start + bytes@.take(i as int));
    }
    assert(bytes@.take(i as int) =~= bytes@);
}

fn append_varint_field(out: &mut Vec<u8>, number: u64, value: u64)
    requires
        1 <= number <= 15,
    ensures
        final(out)@ == old(out)@ + encode_field(
            Field { number: number as nat, value: FieldValue::Varint(value as nat) },
        ),
{
    let ghost start = out@;
    append_varint(out, number * 8);
    append_varint(out, value);
    assert(out@ =~= start + (varint((number * 8) as nat) + varint(value as nat)));
}

fn append_bytes_field(out: &mut Vec<u8>, number: u64, bytes: &[u8])
    requires
        1 <= number <= 15,
    ensures
        final(out)@ == old(out)@ + encode_field(
            Field { number: number as nat, value: FieldValue::Bytes(bytes@) },
        ),
{
    let ghost start = out@;
    append_varint(out, number * 8 + 2);
    append_varint(out, bytes.len() as u64);
    append_bytes(out, bytes);
    assert(out@ =~= start + (varint((number * 8 + 2) as nat) + varint(bytes@.len())
        + bytes@));
}

/// The bytes of one operation sub-message.
pub fn encode_operation(op: &OperationRecord) -> (r: Vec<u8>)
    ensures
        r@ == encode_fields(operation_fields(op@)),
{
    let ghost fs = operation_fields(op@);
    let mut out: Vec<u8> = Vec::new();
    assert(fs.take(0) =~= Seq::<Field>::empty());
    append_varint_field(&mut out, 1, op.micros_since_server_start);
    proof {
        lemma_encode_fields_push(fs.take(0), fs[0]);
        assert(fs.take(0).push(fs[0]) =~= fs.take(1));
    }
    append_varint_field(&mut out, 2, op.address);
    proof {
        lemma_encode_fields_push(fs.take(1), fs[1]);
        assert(fs.take(1).push(fs[1]) =~= fs.take(2));
    }
    append_varint_field(&mut out, 3, op.size);
    proof {
        lemma_encode_fields_push(fs.take(2), fs[2]);
        assert(fs.take(2).push(fs[2]) =~= fs.take(3));
    }
    append_varint_field(&mut out, 4, op.thread_id);
    proof {
        lemma_encode_fields_push(fs.take(3), fs[3]);
        assert(fs.take(3).push(fs[3]) =~= fs.take(4));
    }
    let code: u64 = match op.kind {
        HeapOperationKind::Alloc => 0,
        HeapOperationKind::Dealloc => 1,
    };
    append_varint_field(&mut out, 5, code);
    proof {
        lemma_encode_fields_push(fs.take(4), fs[4]);
        assert(fs.take(4).push(fs[4]) =~= fs.take(5));
    }
    append_bytes_field(&mut out, 6, op.backtrace.as_str().as_bytes());
    proof {
        lemma_encode_fields_push(fs.take(5), fs[5]);
        assert(fs.take(5).push(fs[5]) =~= fs);
    }
    out
}

/// The bytes of one marker sub-message.
pub fn encode_marker(m: &MarkerRecord) -> (r: Vec<u8>)
    ensures
        r@ == encode_fields(marker_fields(m@)),
{
    let ghost fs = marker_fields(m@);
    let mut out: Vec<u8> = Vec::new();
    assert(fs.take(0) =~= Seq::<Field>::empty());
    append_bytes_field(&mut out, 1, m.name.as_str().as_bytes());
    proof {
        lemma_encode_fields_push(fs.take(0), fs[0]);
        assert(fs.take(0).push(fs[0]) =~= fs.take(1));
    }
    append_varint_field(&mut out, 2, m.index);
    proof {
        lemma_encode_fields_push(fs.take(1), fs[1]);
        assert(fs.take(1).push(fs[1]) =~= fs.take(2));
    }
    append_varint_field(&mut out, 3, m.first_operation_seq_no);
    proof {
        lemma_encode_fields_push(fs.take(2), fs[2]);
        assert(fs.take(2).push(fs[2]) =~= fs);
    }
    out
}

/// The frame that carries the given operations and markers, in their order.
pub fn encode_frame(operations: &Vec<OperationRecord>, markers: &Vec<MarkerRecord>) -> (r: Vec<
    u8,
>)
    ensures
        r@ == frame_bytes(batch_of(operations@, markers@)),
{
    let ghost fs = batch_fields(batch_of(operations@, markers@));
    let ghost n_ops = operations@.len();
    let mut body: Vec<u8> = Vec::new();
    assert(fs.take(0) =~= Seq::<Field>::empty());
    let mut i: usize = 0;
    while i < operations.len()
        invariant
            i <= operations@.len(),
            n_ops == operations@.len(),
            fs == batch_fields(batch_of(operations@, markers@)),
            body@ == encode_fields(fs.take(i as int)),
        decreases operations@.len() - i,
    {
        let entry = encode_operation(&operations[i]);
        append_bytes_field(&mut body, 1, entry.as_slice());
        proof {
            assert(fs[i as int] == operation_entry(operations@[i as int]@));
            lemma_encode_fields_push(fs.take(i as int), fs[i as int]);
            assert(fs.take(i as int).push(fs[i as int]) =~= fs.take(i + 1));
        }
        i = i + 1;
    }
    let mut j: usize = 0;
    while j < markers.len()
        invariant
            j <= markers@.len(),
            n_ops == operations@.len(),
            fs == batch_fields(batch_of(operations@, markers@)),
            body@ == encode_fields(fs.take(n_ops + j)),
        decreases markers@.len() - j,
    {
        let entry = encode_marker(&markers[j]);
        append_bytes_field(&mut body, 2, entry.as_slice());
        proof {
            let k = n_ops + j;
            assert(fs[k] == marker_entry(markers@[j as int]@));
            lemma_encode_fields_push(fs.take(k), fs[k]);
            assert(fs.take(k).push(fs[k]) =~= fs.take(k + 1));
        }
        j = j + 1;
    }
    assert(fs.take(n_ops + j) =~= fs);
    let mut frame: Vec<u8> = Vec::new();
    append_varint(&mut frame, body.len() as u64);
    frame.append(&mut body);
    frame
}

} // verus!
