//! The stored form of a delta log, and the proof that every log has exactly
//! one stored form and every byte string is the stored form of at most one log.
use crate::deltas::{Delta, DeltaView};
use crate::error::EngineError;
use crate::operations::{views, Operation, OperationView};
use crate::wire::{
    lemma_parse_text_bytes, lemma_parse_text_canonical, lemma_parse_u128_bytes,
    lemma_parse_u128_canonical, lemma_parse_u32_bytes, lemma_parse_u32_canonical,
    lemma_parse_u64_bytes, lemma_parse_u64_canonical, parse_text, parse_u128, parse_u32,
    parse_u64, put_text, put_u128, put_u32, put_u64, reads_as, take_text, take_u128, take_u32,
    take_u64, text_bytes, text_encodable, word128_bytes, word32_bytes, word64_bytes,
};
use vstd::prelude::*;

verus! {

/// The four bytes that open every stored log.
pub open spec fn log_magic() -> Seq<u8> {
    seq![0x44u8, 0x4cu8, 0x54u8, 0x31u8]
}

/// Whether the operation's numbers fit the widths of the stored form.
pub open spec fn operation_encodable(op: OperationView) -> bool {
    match op {
        OperationView::Insert { offset, text } => offset <= u32::MAX && text_encodable(text),
        OperationView::Delete { offset, length } => offset <= u32::MAX && length <= u32::MAX,
    }
}

/// Whether the delta's numbers fit the widths of the stored form.
pub open spec fn delta_encodable(delta: DeltaView) -> bool {
    &&& delta.timestamp_ms <= u128::MAX
    &&& delta.operations.len() <= u64::MAX
    &&& forall|i: int|
        0 <= i < delta.operations.len() ==> operation_encodable(#[trigger] delta.operations[i])
}

/// Whether the log's numbers fit the widths of the stored form. Every log
/// that is held in memory does.
pub open spec fn log_encodable(deltas: Seq<DeltaView>) -> bool {
    &&& deltas.len() <= u64::MAX
    &&& forall|i: int| 0 <= i < deltas.len() ==> delta_encodable(#[trigger] deltas[i])
}

/// An operation as stored: a tag, the offset, then the text or the length.
pub open spec fn operation_bytes(op: OperationView) -> Seq<u8> {
    match op {
        OperationView::Insert { offset, text } => seq![1u8] + word32_bytes(offset as u32)
            + text_bytes(text),
        OperationView::Delete { offset, length } => seq![2u8] + word32_bytes(offset as u32)
            + word32_bytes(length as u32),
    }
}

/// The stored forms of the operations, one after the other.
pub open spec fn operations_bytes(ops: Seq<OperationView>) -> Seq<u8>
    decreases ops.len(),
{
    if ops.len() == 0 {
        Seq::empty()
    } else {
        operation_bytes(ops[0]) + operations_bytes(ops.drop_first())
    }
}

/// A delta as stored: the timestamp, the number of operations, the operations.
pub open spec fn delta_bytes(delta: DeltaView) -> Seq<u8> {
    word128_bytes(delta.timestamp_ms as u128) + word64_bytes(delta.operations.len() as u64)
        + operations_bytes(delta.operations)
}

/// The stored forms of the deltas, one after the other.
pub open spec fn deltas_bytes(deltas: Seq<DeltaView>) -> Seq<u8>
    decreases deltas.len(),
{
    if deltas.len() == 0 {
        Seq::empty()
    } else {
        delta_bytes(deltas[0]) + deltas_bytes(deltas.drop_first())
    }
}

/// A log as stored: the magic bytes, the number of deltas, the deltas.
pub open spec fn log_bytes(deltas: Seq<DeltaView>) -> Seq<u8> {
    log_magic() + word64_bytes(deltas.len() as u64) + deltas_bytes(deltas)
}

/// Reads one stored operation from the front of `s`.
pub open spec fn parse_operation(s: Seq<u8>) -> Option<(OperationView, Seq<u8>)> {
    if s.len() == 0 {
        None
    } else if s[0] == 1u8 {
        match parse_u32(s.skip(1)) {
            Some((offset, after_offset)) => match parse_text(after_offset) {
                Some((text, rest)) => Some(
                    (OperationView::Insert { offset: offset as nat, text }, rest),
                ),
                None => None,
            },
            None => None,
        }
    } else if s[0] == 2u8 {
        match parse_u32(s.skip(1)) {
            Some((offset, after_offset)) => match parse_u32(after_offset) {
                Some((length, rest)) => Some(
                    (OperationView::Delete { offset: offset as nat, length: length as nat }, rest),
                ),
                None => None,
            },
            None => None,
        }
    } else {
        None
    }
}

/// Reads `count` stored operations from the front of `s`.
pub open spec fn parse_operations(s: Seq<u8>, count: nat) -> Option<(Seq<OperationView>, Seq<u8>)>
    decreases count,
{
    if count == 0 {
        Some((Seq::empty(), s))
    } else {
        match parse_operation(s) {
            Some((op, after)) => match parse_operations(after, (count - 1) as nat) {
                Some((ops, rest)) => Some((seq![op] + ops, rest)),
                None => None,
            },
            None => None,
        }
    }
}

/// Reads one stored delta from the front of `s`.
pub open spec fn parse_delta(s: Seq<u8>) -> Option<(DeltaView, Seq<u8>)> {
    match parse_u128(s) {
        Some((timestamp, after_timestamp)) => match parse_u64(after_timestamp) {
            Some((count, after_count)) => match parse_operations(after_count, count as nat) {
                Some((operations, rest)) => Some(
                    (DeltaView { operations, timestamp_ms: timestamp as nat }, rest),
                ),
                None => None,
            },
            None => None,
        },
        None => None,
    }
}

/// Reads `count` stored deltas from the front of `s`.
pub open spec fn parse_deltas(s: Seq<u8>, count: nat) -> Option<(Seq<DeltaView>, Seq<u8>)>
    decreases count,
{
    if count == 0 {
        Some((Seq::empty(), s))
    } else {
        match parse_delta(s) {
            Some((delta, after)) => match parse_deltas(after, (count - 1) as nat) {
                Some((deltas, rest)) => Some((seq![delta] + deltas, rest)),
                None => None,
            },
            None => None,
        }
    }
}

/// Reads a whole stored log: nothing may follow the last delta.
pub open spec fn parse_log(s: Seq<u8>) -> Option<Seq<DeltaView>> {
    if s.len() >= 4 && s.take(4) == log_magic() {
        match parse_u64(s.skip(4)) {
            Some((count, after_count)) => match parse_deltas(after_count, count as nat) {
                Some((deltas, rest)) => if rest.len() == 0 {
                    Some(deltas)
                } else {
                    None
                },
                None => None,
            },
            None => None,
        }
    } else {
        None
    }
}

/// A stored operation is read back as it was, whatever follows it.
pub proof fn lemma_parse_operation_bytes(op: OperationView, rest: Seq<u8>)
    requires
        operation_encodable(op),
    ensures
        parse_operation(operation_bytes(op) + rest) == Some((op, rest)),
{
    let s = operation_bytes(op) + rest;
    match op {
        OperationView::Insert { offset, text } => {
            assert(s.skip(1) =~= word32_bytes(offset as u32) + (text_bytes(text) + rest));
            lemma_parse_u32_bytes(offset as u32, text_bytes(text) + rest);
            lemma_parse_text_bytes(text, rest);
        },
        OperationView::Delete { offset, length } => {
            assert(s.skip(1) =~= word32_bytes(offset as u32) + (word32_bytes(length as u32)
                + rest));
            lemma_parse_u32_bytes(offset as u32, word32_bytes(length as u32) + rest);
            lemma_parse_u32_bytes(length as u32, rest);
        },
    }
}

/// Whatever is read as an operation begins with the stored form of that operation.
pub proof fn lemma_parse_operation_canonical(s: Seq<u8>)
    requires
        parse_operation(s) is Some,
    ensures
        operation_encodable(parse_operation(s).unwrap().0),
        s == operation_bytes(parse_operation(s).unwrap().0) + parse_operation(s).unwrap().1,
{
    lemma_parse_u32_canonical(s.skip(1));
    let after_offset = parse_u32(s.skip(1)).unwrap().1;
    assert(s =~= seq![s[0]] + s.skip(1));
    if s[0] == 1u8 {
        lemma_parse_text_canonical(after_offset);
    } else {
        lemma_parse_u32_canonical(after_offset);
    }
}

/// Stored operations are read back as they were, whatever follows them.
pub proof fn lemma_parse_operations_bytes(ops: Seq<OperationView>, rest: Seq<u8>)
    requires
        forall|i: int| 0 <= i < ops.len() ==> operation_encodable(#[trigger] ops[i]),
    ensures
        parse_operations(operations_bytes(ops) + rest, ops.len()) == Some((ops, rest)),
    decreases ops.len(),
{
    if ops.len() == 0 {
    } else {
        let tail = ops.drop_first();
        assert(operations_bytes(ops) + rest =~= operation_bytes(ops[0]) + (operations_bytes(tail)
            + rest));
        lemma_parse_operation_bytes(ops[0], operations_bytes(tail) + rest);
        assert forall|i: int| 0 <= i < tail.len() implies operation_encodable(
            #[trigger] tail[i],
        ) by {
        }
        lemma_parse_operations_bytes(tail, rest);
    }
}

/// Whatever is read as operations begins with the stored form of those operations.
pub proof fn lemma_parse_operations_canonical(s: Seq<u8>, count: nat)
    requires
        parse_operations(s, count) is Some,
    ensures
        parse_operations(s, count).unwrap().0.len() == count,
        forall|i: int|
            0 <= i < count ==> operation_encodable(
                #[trigger] parse_operations(s, count).unwrap().0[i],
            ),
        s == operations_bytes(parse_operations(s, count).unwrap().0) + parse_operations(
            s,
            count,
        ).unwrap().1,
    decreases count,
{
    let (ops, rest) = parse_operations(s, count).unwrap();
    if count == 0 {
    } else {
        let (op, after) = parse_operation(s).unwrap();
        lemma_parse_operation_canonical(s);
        lemma_parse_operations_canonical(after, (count - 1) as nat);
        let (tail, _) = parse_operations(after, (count - 1) as nat).unwrap();
        assert(ops.drop_first() =~= tail);
        assert forall|i: int| 0 <= i < count implies operation_encodable(#[trigger] ops[i]) by {
            if i > 0 {
            }
        }
    }
}

/// A stored delta is read back as it was, whatever follows it.
pub proof fn lemma_parse_delta_bytes(delta: DeltaView, rest: Seq<u8>)
    requires
        delta_encodable(delta),
    ensures
        parse_delta(delta_bytes(delta) + rest) == Some((delta, rest)),
{
    let count = delta.operations.len() as u64;
    let body = operations_bytes(delta.operations);
    assert(delta_bytes(delta) + rest =~= word128_bytes(delta.timestamp_ms as u128) + (
    word64_bytes(count) + (body + rest)));
    lemma_parse_u128_bytes(delta.timestamp_ms as u128, word64_bytes(count) + (body + rest));
    lemma_parse_u64_bytes(count, body + rest);
    lemma_parse_operations_bytes(delta.operations, rest);
}

/// Whatever is read as a delta begins with the stored form of that delta.
pub proof fn lemma_parse_delta_canonical(s: Seq<u8>)
    requires
        parse_delta(s) is Some,
    ensures
        delta_encodable(parse_delta(s).unwrap().0),
        s == delta_bytes(parse_delta(s).unwrap().0) + parse_delta(s).unwrap().1,
{
    let (delta, rest) = parse_delta(s).unwrap();
    lemma_parse_u128_canonical(s);
    let (timestamp, after_timestamp) = parse_u128(s).unwrap();
    lemma_parse_u64_canonical(after_timestamp);
    let (count, after_count) = parse_u64(after_timestamp).unwrap();
    lemma_parse_operations_canonical(after_count, count as nat);
}

/// Stored deltas are read back as they were, whatever follows them.
pub proof fn lemma_parse_deltas_bytes(deltas: Seq<DeltaView>, rest: Seq<u8>)
    requires
        forall|i: int| 0 <= i < deltas.len() ==> delta_encodable(#[trigger] deltas[i]),
    ensures
        parse_deltas(deltas_bytes(deltas) + rest, deltas.len()) == Some((deltas, rest)),
    decreases deltas.len(),
{
    if deltas.len() == 0 {
    } else {
        let tail = deltas.drop_first();
        assert(deltas_bytes(deltas) + rest =~= delta_bytes(deltas[0]) + (deltas_bytes(tail)
            + rest));
        lemma_parse_delta_bytes(deltas[0], deltas_bytes(tail) + rest);
        assert forall|i: int| 0 <= i < tail.len() implies delta_encodable(#[trigger] tail[i]) by {
        }
        lemma_parse_deltas_bytes(tail, rest);
    }
}

/// Whatever is read as deltas begins with the stored form of those deltas.
pub proof fn lemma_parse_deltas_canonical(s: Seq<u8>, count: nat)
    requires
        parse_deltas(s, count) is Some,
    ensures
        parse_deltas(s, count).unwrap().0.len() == count,
        forall|i: int|
            0 <= i < count ==> delta_encodable(#[trigger] parse_deltas(s, count).unwrap().0[i]),
        s == deltas_bytes(parse_deltas(s, count).unwrap().0) + parse_deltas(
            s,
            count,
        ).unwrap().1,
    decreases count,
{
    let (deltas, rest) = parse_deltas(s, count).unwrap();
    if count == 0 {
    } else {
        let (delta, after) = parse_delta(s).unwrap();
        lemma_parse_delta_canonical(s);
        lemma_parse_deltas_canonical(after, (count - 1) as nat);
        let (tail, _) = parse_deltas(after, (count - 1) as nat).unwrap();
        assert(deltas.drop_first() =~= tail);
        assert forall|i: int| 0 <= i < count implies delta_encodable(#[trigger] deltas[i]) by {
            if i > 0 {
            }
        }
    }
}

/// Reading the stored form of a log gives the log back.
pub proof fn lemma_parse_log_bytes(deltas: Seq<DeltaView>)
    requires
        log_encodable(deltas),
    ensures
        parse_log(log_bytes(deltas)) == Some(deltas),
{
    let s = log_bytes(deltas);
    let count = deltas.len() as u64;
    assert(s.take(4) =~= log_magic());
    assert(s.skip(4) =~= word64_bytes(count) + (deltas_bytes(deltas) + Seq::<u8>::empty()));
    lemma_parse_u64_bytes(count, deltas_bytes(deltas) + Seq::<u8>::empty());
    lemma_parse_deltas_bytes(deltas, Seq::<u8>::empty());
}

/// Whatever is read as a log is the stored form of that log.
pub proof fn lemma_parse_log_canonical(s: Seq<u8>)
    requires
        parse_log(s) is Some,
    ensures
        log_encodable(parse_log(s).unwrap()),
        s == log_bytes(parse_log(s).unwrap()),
{
    lemma_parse_u64_canonical(s.skip(4));
    let (count, after_count) = parse_u64(s.skip(4)).unwrap();
    lemma_parse_deltas_canonical(after_count, count as nat);
    assert(s =~= s.take(4) + s.skip(4));
}

/// The stored form of a list grows at its end as the list does.
pub proof fn lemma_operations_bytes_push(ops: Seq<OperationView>, op: OperationView)
    ensures
        operations_bytes(ops.push(op)) == operations_bytes(ops) + operation_bytes(op),
    decreases ops.len(),
{
    if ops.len() == 0 {
        assert(ops.push(op).drop_first() =~= Seq::<OperationView>::empty());
        assert(operations_bytes(Seq::<OperationView>::empty()) =~= Seq::<u8>::empty());
    } else {
        assert(ops.push(op).drop_first() =~= ops.drop_first().push(op));
        lemma_operations_bytes_push(ops.drop_first(), op);
    }
}

/// The stored form of a list grows at its end as the list does.
pub proof fn lemma_deltas_bytes_push(deltas: Seq<DeltaView>, delta: DeltaView)
    ensures
        deltas_bytes(deltas.push(delta)) == deltas_bytes(deltas) + delta_bytes(delta),
    decreases deltas.len(),
{
    if deltas.len() == 0 {
        assert(deltas.push(delta).drop_first() =~= Seq::<DeltaView>::empty());
        assert(deltas_bytes(Seq::<DeltaView>::empty()) =~= Seq::<u8>::empty());
    } else {
        assert(deltas.push(delta).drop_first() =~= deltas.drop_first().push(delta));
        lemma_deltas_bytes_push(deltas.drop_first(), delta);
    }
}

/// Appends an operation in its stored form.
fn put_operation(out: &mut Vec<u8>, op: &Operation)
    ensures
        operation_encodable(op@),
        final(out)@ == old(out)@ + operation_bytes(op@),
{
    match op {
        Operation::Insert((offset, text)) => {
            out.push(1u8);
            put_u32(out, *offset);
            put_text(out, text.as_str());
        },
        Operation::Delete((offset, length)) => {
            out.push(2u8);
            put_u32(out, *offset);
            put_u32(out, *length);
        },
    }
}

/// Appends the operations in their stored forms, in order.
fn put_operations(out: &mut Vec<u8>, ops: &Vec<Operation>)
    ensures
        forall|i: int| 0 <= i < ops@.len() ==> operation_encodable(#[trigger] views(ops@)[i]),
        final(out)@ == old(out)@ + operations_bytes(views(ops@)),
{
    let mut i: usize = 0;
    while i < ops.len()
        invariant
            i <= ops.len(),
            forall|j: int| 0 <= j < i ==> operation_encodable(#[trigger] views(ops@)[j]),
            out@ == old(out)@ + operations_bytes(views(ops@).take(i as int)),
        decreases ops.len() - i,
    {
        put_operation(out, &ops[i]);
        proof {
            let done = views(ops@).take(i as int);
            assert(views(ops@).take(i + 1) =~= done.push(ops@[i as int]@));
            lemma_operations_bytes_push(done, ops@[i as int]@);
        }
        i += 1;
    }
    assert(views(ops@).take(i as int) =~= views(ops@));
}

/// Appends a delta in its stored form.
fn put_delta(out: &mut Vec<u8>, delta: &Delta)
    ensures
        delta_encodable(delta@),
        final(out)@ == old(out)@ + delta_bytes(delta@),
{
    put_u128(out, delta.timestamp_ms);
    put_u64(out, delta.operations.len() as u64);
    put_operations(out, &delta.operations);
}

/// The stored form of a log.
pub fn encode_log(deltas: &Vec<Delta>) -> (bytes: Vec<u8>)
    ensures
        log_encodable(views(deltas@)),
        bytes@ == log_bytes(views(deltas@)),
{
    let mut out: Vec<u8> = Vec::new();
    out.push(0x44u8);
    out.push(0x4cu8);
    out.push(0x54u8);
    out.push(0x31u8);
    put_u64(&mut out, deltas.len() as u64);
    let ghost head = out@;
    let mut i: usize = 0;
    while i < deltas.len()
        invariant
            i <= deltas.len(),
            forall|j: int| 0 <= j < i ==> delta_encodable(#[trigger] views(deltas@)[j]),
            out@ == head + deltas_bytes(views(deltas@).take(i as int)),
        decreases deltas.len() - i,
    {
        put_delta(&mut out, &deltas[i]);
        proof {
            let done = views(deltas@).take(i as int);
            assert(views(deltas@).take(i + 1) =~= done.push(deltas@[i as int]@));
            lemma_deltas_bytes_push(done, deltas@[i as int]@);
        }
        i += 1;
    }
    assert(views(deltas@).take(i as int) =~= views(deltas@));
    out
}

/// Reads one stored operation at `pos`.
fn take_operation(bytes: &[u8], pos: usize) -> (read: Option<(Operation, usize)>)
    requires
        pos <= bytes@.len(),
    ensures
        reads_as(
            bytes@,
            pos,
            parse_operation(bytes@.skip(pos as int)),
            read,
            |op: Operation| op@,
        ),
{
    if pos >= bytes.len() {
        return None;
    }
    let tag: u8 = bytes[pos];
    assert(bytes@.skip(pos as int).skip(1) =~= bytes@.skip(pos + 1));
    if tag == 1u8 {
        let (offset, at) = match take_u32(bytes, pos + 1) {
            Some(found) => found,
            None => {
                return None;
            },
        };
        match take_text(bytes, at) {
            Some((text, end)) => Some((Operation::Insert((offset, text)), end)),
            None => None,
        }
    } else if tag == 2u8 {
        let (offset, at) = match take_u32(bytes, pos + 1) {
            Some(found) => found,
            None => {
                return None;
            },
        };
        match take_u32(bytes, at) {
            Some((length, end)) => Some((Operation::Delete((offset, length)), end)),
            None => None,
        }
    } else {
        None
    }
}

/// Reads `count` stored operations at `pos`.
fn take_operations(bytes: &[u8], pos: usize, count: u64) -> (read: Option<
    (Vec<Operation>, usize),
>)
    requires
        pos <= bytes@.len(),
    ensures
        reads_as(
            bytes@,
            pos,
            parse_operations(bytes@.skip(pos as int), count as nat),
            read,
            |ops: Vec<Operation>| views(ops@),
        ),
{
    let mut ops: Vec<Operation> = Vec::new();
    let mut at: usize = pos;
    let mut i: u64 = 0;
    let ghost whole = parse_operations(bytes@.skip(pos as int), count as nat);
    while i < count
        invariant
            i <= count,
            pos <= at <= bytes@.len(),
            whole == parse_operations(bytes@.skip(pos as int), count as nat),
            whole == match parse_operations(bytes@.skip(at as int), (count - i) as nat) {
                Some((tail, rest)) => Some((views(ops@) + tail, rest)),
                None => None,
            },
        decreases count - i,
    {
        match take_operation(bytes, at) {
            Some((op, next)) => {
                ops.push(op);
                at = next;
            },
            None => {
                return None;
            },
        }
        i += 1;
    }
    Some((ops, at))
}

/// Reads one stored delta at `pos`.
fn take_delta(bytes: &[u8], pos: usize) -> (read: Option<(Delta, usize)>)
    requires
        pos <= bytes@.len(),
    ensures
        reads_as(bytes@, pos, parse_delta(bytes@.skip(pos as int)), read, |delta: Delta| delta@),
{
    let (timestamp_ms, after_timestamp) = match take_u128(bytes, pos) {
        Some(found) => found,
        None => {
            return None;
        },
    };
    let (count, after_count) = match take_u64(bytes, after_timestamp) {
        Some(found) => found,
        None => {
            return None;
        },
    };
    match take_operations(bytes, after_count, count) {
        Some((operations, end)) => Some((Delta { operations, timestamp_ms }, end)),
        None => None,
    }
}

/// Reads `count` stored deltas at `pos`.
fn take_deltas(bytes: &[u8], pos: usize, count: u64) -> (read: Option<(Vec<Delta>, usize)>)
    requires
        pos <= bytes@.len(),
    ensures
        reads_as(
            bytes@,
            pos,
            parse_deltas(bytes@.skip(pos as int), count as nat),
            read,
            |deltas: Vec<Delta>| views(deltas@),
        ),
{
    let mut deltas: Vec<Delta> = Vec::new();
    let mut at: usize = pos;
    let mut i: u64 = 0;
    let ghost whole = parse_deltas(bytes@.skip(pos as int), count as nat);
    while i < count
        invariant
            i <= count,
            pos <= at <= bytes@.len(),
            whole == parse_deltas(bytes@.skip(pos as int), count as nat),
            whole == match parse_deltas(bytes@.skip(at as int), (count - i) as nat) {
                Some((tail, rest)) => Some((views(deltas@) + tail, rest)),
                None => None,
            },
        decreases count - i,
    {
        match take_delta(bytes, at) {
            Some((delta, next)) => {
                deltas.push(delta);
                at = next;
            },
            None => {
                return None;
            },
        }
        i += 1;
    }
    Some((deltas, at))
}

/// Reads a whole stored log, as [`parse_log`] does.
fn read_log(bytes: &[u8]) -> (read: Option<Vec<Delta>>)
    ensures
        match parse_log(bytes@) {
            Some(deltas) => read is Some && views(read.unwrap()@) == deltas,
            None => read is None,
        },
{
    if bytes.len() < 4 {
        return None;
    }
    if bytes[0] != 0x44u8 || bytes[1] != 0x4cu8 || bytes[2] != 0x54u8 || bytes[3] != 0x31u8 {
        return None;
    }
    assert(bytes@.take(4) =~= log_magic());
    let (count, after_count) = match take_u64(bytes, 4) {
        Some(found) => found,
        None => {
            return None;
        },
    };
    match take_deltas(bytes, after_count, count) {
        Some((deltas, end)) => {
            if end == bytes.len() {
                Some(deltas)
            } else {
                None
            }
        },
        None => None,
    }
}

/// Reads a stored log back. Succeeds exactly on the byte strings that are the
/// stored form of a log, and then returns that log; every other byte string,
/// the empty one and a truncated log among them, is [`EngineError::CorruptLog`].
pub fn decode_log(bytes: &[u8]) -> (result: Result<Vec<Delta>, EngineError>)
    ensures
        match result {
            Ok(deltas) => log_encodable(views(deltas@)) && log_bytes(views(deltas@)) == bytes@,
            Err(e) => e == EngineError::CorruptLog && forall|log: Seq<DeltaView>|
                log_encodable(log) ==> #[trigger] log_bytes(log) != bytes@,
        },
        match parse_log(bytes@) {
            Some(deltas) => result is Ok && views(result.unwrap()@) == deltas,
            None => result is Err,
        },
{
    match read_log(bytes) {
        Some(deltas) => {
            proof {
                lemma_parse_log_canonical(bytes@);
            }
            Ok(deltas)
        },
        None => {
            assert forall|log: Seq<DeltaView>| log_encodable(log) implies #[trigger] log_bytes(
                log,
            ) != bytes@ by {
                if log_bytes(log) == bytes@ {
                    lemma_parse_log_bytes(log);
                }
            }
            Err(EngineError::CorruptLog)
        },
    }
}

} // verus!
