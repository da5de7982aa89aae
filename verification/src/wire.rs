//! The building blocks of the stored formats: little-endian integers of fixed
//! width and UTF-8 text behind its length in bytes.
use vstd::bytes::*;
use vstd::prelude::*;
use vstd::slice::*;
use vstd::utf8::*;

verus! {

/// The four bytes of `x`, lowest first.
pub open spec fn word32_bytes(x: u32) -> Seq<u8> {
    spec_u32_to_le_bytes(x)
}

/// The eight bytes of `x`, lowest first.
pub open spec fn word64_bytes(x: u64) -> Seq<u8> {
    spec_u64_to_le_bytes(x)
}

/// The sixteen bytes of `x`, lowest first.
pub open spec fn word128_bytes(x: u128) -> Seq<u8> {
    spec_u128_to_le_bytes(x)
}

/// Whether the text's UTF-8 form is short enough for a 64-bit length.
pub open spec fn text_encodable(text: Seq<char>) -> bool {
    encode_utf8(text).len() <= u64::MAX
}

/// A text as stored: the length of its UTF-8 form in bytes, then that form.
pub open spec fn text_bytes(text: Seq<char>) -> Seq<u8> {
    word64_bytes(encode_utf8(text).len() as u64) + encode_utf8(text)
}

/// Reads a 32-bit word from the front of `s`; the second component is what
/// follows it.
pub open spec fn parse_u32(s: Seq<u8>) -> Option<(u32, Seq<u8>)> {
    if s.len() >= 4 {
        Some((spec_u32_from_le_bytes(s.take(4)), s.skip(4)))
    } else {
        None
    }
}

/// Reads a 64-bit word from the front of `s`.
pub open spec fn parse_u64(s: Seq<u8>) -> Option<(u64, Seq<u8>)> {
    if s.len() >= 8 {
        Some((spec_u64_from_le_bytes(s.take(8)), s.skip(8)))
    } else {
        None
    }
}

/// Reads a 128-bit word from the front of `s`.
pub open spec fn parse_u128(s: Seq<u8>) -> Option<(u128, Seq<u8>)> {
    if s.len() >= 16 {
        Some((spec_u128_from_le_bytes(s.take(16)), s.skip(16)))
    } else {
        None
    }
}

/// Reads a stored text from the front of `s`.
pub open spec fn parse_text(s: Seq<u8>) -> Option<(Seq<char>, Seq<u8>)> {
    match parse_u64(s) {
        Some((n, rest)) => if n <= rest.len() && valid_utf8(rest.take(n as int)) {
            Some((decode_utf8(rest.take(n as int)), rest.skip(n as int)))
        } else {
            None
        },
        None => None,
    }
}

/// What an executable reader owes when it is started at `pos`: it finds
/// exactly what `parsed` finds in the bytes from `pos` on, and ends where
/// `parsed` says the rest begins.
pub open spec fn reads_as<T, V>(
    bytes: Seq<u8>,
    pos: usize,
    parsed: Option<(V, Seq<u8>)>,
    read: Option<(T, usize)>,
    value_of: spec_fn(T) -> V,
) -> bool {
    match parsed {
        Some((value, rest)) => {
            &&& read is Some
            &&& value_of(read.unwrap().0) == value
            &&& pos <= read.unwrap().1 <= bytes.len()
            &&& rest == bytes.skip(read.unwrap().1 as int)
        },
        None => read is None,
    }
}

/// The bytes of a 32-bit word are read back as the word, whatever follows them.
pub proof fn lemma_parse_u32_bytes(x: u32, rest: Seq<u8>)
    ensures
        parse_u32(word32_bytes(x) + rest) == Some((x, rest)),
{
    lemma_auto_spec_u32_to_from_le_bytes();
    let s = word32_bytes(x) + rest;
    assert(s.take(4) =~= word32_bytes(x));
}

/// Whatever is read as a 32-bit word begins with the bytes of that word.
pub proof fn lemma_parse_u32_canonical(s: Seq<u8>)
    requires
        parse_u32(s) is Some,
    ensures
        s == word32_bytes(parse_u32(s).unwrap().0) + parse_u32(s).unwrap().1,
{
    lemma_auto_spec_u32_to_from_le_bytes();
}

/// The bytes of a 64-bit word are read back as the word, whatever follows them.
pub proof fn lemma_parse_u64_bytes(x: u64, rest: Seq<u8>)
    ensures
        parse_u64(word64_bytes(x) + rest) == Some((x, rest)),
{
    lemma_auto_spec_u64_to_from_le_bytes();
    let s = word64_bytes(x) + rest;
    assert(s.take(8) =~= word64_bytes(x));
}

/// Whatever is read as a 64-bit word begins with the bytes of that word.
pub proof fn lemma_parse_u64_canonical(s: Seq<u8>)
    requires
        parse_u64(s) is Some,
    ensures
        s == word64_bytes(parse_u64(s).unwrap().0) + parse_u64(s).unwrap().1,
{
    lemma_auto_spec_u64_to_from_le_bytes();
}

/// The bytes of a 128-bit word are read back as the word, whatever follows them.
pub proof fn lemma_parse_u128_bytes(x: u128, rest: Seq<u8>)
    ensures
        parse_u128(word128_bytes(x) + rest) == Some((x, rest)),
{
    lemma_auto_spec_u128_to_from_le_bytes();
    let s = word128_bytes(x) + rest;
    assert(s.take(16) =~= word128_bytes(x));
}

/// Whatever is read as a 128-bit word begins with the bytes of that word.
pub proof fn lemma_parse_u128_canonical(s: Seq<u8>)
    requires
        parse_u128(s) is Some,
    ensures
        s == word128_bytes(parse_u128(s).unwrap().0) + parse_u128(s).unwrap().1,
{
    lemma_auto_spec_u128_to_from_le_bytes();
}

/// A stored text is read back as it was, whatever follows it.
pub proof fn lemma_parse_text_bytes(text: Seq<char>, rest: Seq<u8>)
    requires
        text_encodable(text),
    ensures
        parse_text(text_bytes(text) + rest) == Some((text, rest)),
{
    let body = encode_utf8(text);
    let n = body.len() as u64;
    lemma_parse_u64_bytes(n, body + rest);
    assert(text_bytes(text) + rest =~= word64_bytes(n) + (body + rest));
    assert((body + rest).take(n as int) =~= body);
    encode_utf8_valid_utf8(text);
    encode_utf8_decode_utf8(text);
}

/// Whatever is read as a text was stored as that text.
pub proof fn lemma_parse_text_canonical(s: Seq<u8>)
    requires
        parse_text(s) is Some,
    ensures
        text_encodable(parse_text(s).unwrap().0),
        s == text_bytes(parse_text(s).unwrap().0) + parse_text(s).unwrap().1,
{
    lemma_parse_u64_canonical(s);
    let (n, rest) = parse_u64(s).unwrap();
    let body = rest.take(n as int);
    decode_utf8_encode_utf8(body);
}

/// Appends the four bytes of `x`.
pub fn put_u32(out: &mut Vec<u8>, x: u32)
    ensures
        final(out)@ == old(out)@ + word32_bytes(x),
{
    let mut word = u32_to_le_bytes(x);
    out.append(&mut word);
}

/// Appends the eight bytes of `x`.
pub fn put_u64(out: &mut Vec<u8>, x: u64)
    ensures
        final(out)@ == old(out)@ + word64_bytes(x),
{
    let mut word = u64_to_le_bytes(x);
    out.append(&mut word);
}

/// Appends the sixteen bytes of `x`.
pub fn put_u128(out: &mut Vec<u8>, x: u128)
    ensures
        final(out)@ == old(out)@ + word128_bytes(x),
{
    let mut word = u128_to_le_bytes(x);
    out.append(&mut word);
}

/// Appends a text in its stored form.
pub fn put_text(out: &mut Vec<u8>, text: &str)
    ensures
        text_encodable(text@),
        final(out)@ == old(out)@ + text_bytes(text@),
{
    let body = text.as_bytes();
    put_u64(out, body.len() as u64);
    out.extend_from_slice(body);
}

/// Reads a 32-bit word at `pos`; nothing where `pos` lies behind the end.
pub fn take_u32(bytes: &[u8], pos: usize) -> (read: Option<(u32, usize)>)
    ensures
        pos <= bytes@.len() ==> reads_as(
            bytes@,
            pos,
            parse_u32(bytes@.skip(pos as int)),
            read,
            |x: u32| x,
        ),
        pos > bytes@.len() ==> read is None,
{
    if pos > bytes.len() || bytes.len() - pos < 4 {
        return None;
    }
    let word = slice_subrange(bytes, pos, pos + 4);
    assert(bytes@.skip(pos as int).take(4) =~= word@);
    assert(bytes@.skip(pos as int).skip(4) =~= bytes@.skip(pos + 4));
    Some((u32_from_le_bytes(word), pos + 4))
}

/// Reads a 64-bit word at `pos`; nothing where `pos` lies behind the end.
pub fn take_u64(bytes: &[u8], pos: usize) -> (read: Option<(u64, usize)>)
    ensures
        pos <= bytes@.len() ==> reads_as(
            bytes@,
            pos,
            parse_u64(bytes@.skip(pos as int)),
            read,
            |x: u64| x,
        ),
        pos > bytes@.len() ==> read is None,
{
    if pos > bytes.len() || bytes.len() - pos < 8 {
        return None;
    }
    let word = slice_subrange(bytes, pos, pos + 8);
    assert(bytes@.skip(pos as int).take(8) =~= word@);
    assert(bytes@.skip(pos as int).skip(8) =~= bytes@.skip(pos + 8));
    Some((u64_from_le_bytes(word), pos + 8))
}

/// Reads a 128-bit word at `pos`; nothing where `pos` lies behind the end.
pub fn take_u128(bytes: &[u8], pos: usize) -> (read: Option<(u128, usize)>)
    ensures
        pos <= bytes@.len() ==> reads_as(
            bytes@,
            pos,
            parse_u128(bytes@.skip(pos as int)),
            read,
            |x: u128| x,
        ),
        pos > bytes@.len() ==> read is None,
{
    if pos > bytes.len() || bytes.len() - pos < 16 {
        return None;
    }
    let word = slice_subrange(bytes, pos, pos + 16);
    assert(bytes@.skip(pos as int).take(16) =~= word@);
    assert(bytes@.skip(pos as int).skip(16) =~= bytes@.skip(pos + 16));
    Some((u128_from_le_bytes(word), pos + 16))
}

/// `String::from_utf8` of the standard library: it accepts exactly the byte
/// strings that are well-formed UTF-8, and the string it returns has those
/// bytes as its UTF-8 form.
#[verifier::external_body]
fn string_from_utf8(bytes: Vec<u8>) -> (text: Option<String>)
    ensures
        text is Some <==> valid_utf8(bytes@),
        text is Some ==> encode_utf8(text.unwrap()@) == bytes@,
{
    match String::from_utf8(bytes) {
        Ok(text) => Some(text),
        Err(_) => None,
    }
}

/// Reads a stored text at `pos`; nothing where `pos` lies behind the end.
pub fn take_text(bytes: &[u8], pos: usize) -> (read: Option<(String, usize)>)
    ensures
        pos <= bytes@.len() ==> reads_as(
            bytes@,
            pos,
            parse_text(bytes@.skip(pos as int)),
            read,
            |t: String| t@,
        ),
        pos > bytes@.len() ==> read is None,
{
    let (n, at) = match take_u64(bytes, pos) {
        Some(found) => found,
        None => {
            return None;
        },
    };
    if n > (bytes.len() - at) as u64 {
        return None;
    }
    let end: usize = at + n as usize;
    let body = slice_to_vec(slice_subrange(bytes, at, end));
    assert(bytes@.skip(at as int).take(n as int) =~= body@);
    assert(bytes@.skip(at as int).skip(n as int) =~= bytes@.skip(end as int));
    match string_from_utf8(body) {
        Some(text) => {
            proof {
                encode_utf8_decode_utf8(text@);
            }
            Some((text, end))
        },
        None => None,
    }
}

} // verus!
