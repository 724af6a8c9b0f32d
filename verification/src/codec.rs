//! Deterministic, endian-stable binary encoding of the message set.
//!
//! Every multi-byte integer is written big-endian. A string is written as a
//! `u32` big-endian byte count followed by its UTF-8 bytes. The decoder
//! accepts exactly the encodings the encoder produces.

use vstd::prelude::*;
use vstd::utf8::{decode_utf8, encode_utf8, valid_utf8};

use crate::messages::{
    DispatchJob, DispatchJobView, JobComplete, JobCompleteView, JobOutCome, Message, MessageError,
    MessageView, RegisterAgent, RegisterAgentView,
};

verus! {

// ---------------------------------------------------------------------------
// Big-endian integers
// ---------------------------------------------------------------------------

/// Big-endian bytes of a `u16`.
pub open spec fn spec_u16_be(x: u16) -> Seq<u8> {
    seq![(x >> 8) as u8, x as u8]
}

/// Big-endian bytes of a `u32`.
pub open spec fn spec_u32_be(x: u32) -> Seq<u8> {
    seq![(x >> 24) as u8, (x >> 16) as u8, (x >> 8) as u8, x as u8]
}

/// Big-endian bytes of a `u64`.
pub open spec fn spec_u64_be(x: u64) -> Seq<u8> {
    seq![
        (x >> 56) as u8,
        (x >> 48) as u8,
        (x >> 40) as u8,
        (x >> 32) as u8,
        (x >> 24) as u8,
        (x >> 16) as u8,
        (x >> 8) as u8,
        x as u8,
    ]
}

/// Big-endian bytes of an `i32`, two's complement.
pub open spec fn spec_i32_be(x: i32) -> Seq<u8> {
    spec_u32_be(x as u32)
}

/// Big-endian bytes of an `i64`, two's complement.
pub open spec fn spec_i64_be(x: i64) -> Seq<u8> {
    spec_u64_be(x as u64)
}

/// The `u16` whose big-endian bytes are `b`.
pub open spec fn spec_u16_from_be(b: Seq<u8>) -> u16
    recommends
        b.len() == 2,
{
    (((b[0] as u16) << 8) | (b[1] as u16)) as u16
}

/// The `u32` whose big-endian bytes are `b`.
pub open spec fn spec_u32_from_be(b: Seq<u8>) -> u32
    recommends
        b.len() == 4,
{
    (((b[0] as u32) << 24) | ((b[1] as u32) << 16) | ((b[2] as u32) << 8) | (b[3] as u32)) as u32
}

/// The `u64` whose big-endian bytes are `b`.
pub open spec fn spec_u64_from_be(b: Seq<u8>) -> u64
    recommends
        b.len() == 8,
{
    (((b[0] as u64) << 56) | ((b[1] as u64) << 48) | ((b[2] as u64) << 40) | ((b[3] as u64) << 32)
        | ((b[4] as u64) << 24) | ((b[5] as u64) << 16) | ((b[6] as u64) << 8) | (b[7] as u64)) as u64
}

/// Writing a `u16` big-endian and reading it back yields the same value.
pub proof fn lemma_u16_be_round_trip(x: u16)
    ensures
        spec_u16_from_be(spec_u16_be(x)) == x,
{
    assert((((((x >> 8) as u8) as u16) << 8) | ((x as u8) as u16)) as u16 == x) by (bit_vector);
}

/// Writing a `u32` big-endian and reading it back yields the same value.
pub proof fn lemma_u32_be_round_trip(x: u32)
    ensures
        spec_u32_from_be(spec_u32_be(x)) == x,
{
    assert(((((((x >> 24) as u8) as u32) << 24) | ((((x >> 16) as u8) as u32) << 16) | ((((x
        >> 8) as u8) as u32) << 8) | (((x as u8) as u32))) as u32) == x) by (bit_vector);
}

/// Writing a `u64` big-endian and reading it back yields the same value.
pub proof fn lemma_u64_be_round_trip(x: u64)
    ensures
        spec_u64_from_be(spec_u64_be(x)) == x,
{
    assert(((((((x >> 56) as u8) as u64) << 56) | ((((x >> 48) as u8) as u64) << 48) | ((((x
        >> 40) as u8) as u64) << 40) | ((((x >> 32) as u8) as u64) << 32) | ((((x
        >> 24) as u8) as u64) << 24) | ((((x >> 16) as u8) as u64) << 16) | ((((x
        >> 8) as u8) as u64) << 8) | (((x as u8) as u64))) as u64) == x) by (bit_vector);
}

/// An `i32` survives the round through its unsigned two's-complement image.
pub proof fn lemma_i32_cast_round_trip(x: i32)
    ensures
        (x as u32) as i32 == x,
{
    assert(((x as u32) as i32) == x) by (bit_vector);
}

/// An `i64` survives the round through its unsigned two's-complement image.
pub proof fn lemma_i64_cast_round_trip(x: i64)
    ensures
        (x as u64) as i64 == x,
{
    assert(((x as u64) as i64) == x) by (bit_vector);
}

/// Appends the big-endian bytes of `x` to `out`.
pub fn push_u16_be(out: &mut Vec<u8>, x: u16)
    ensures
        final(out)@ == old(out)@ + spec_u16_be(x),
{
    out.push((x >> 8) as u8);
    out.push(#[verifier::truncate] (x as u8));
    assert(out@ =~= old(out)@ + spec_u16_be(x));
}

/// Appends the big-endian bytes of `x` to `out`.
pub fn push_u32_be(out: &mut Vec<u8>, x: u32)
    ensures
        final(out)@ == old(out)@ + spec_u32_be(x),
{
    out.push((x >> 24) as u8);
    out.push(#[verifier::truncate] ((x >> 16) as u8));
    out.push(#[verifier::truncate] ((x >> 8) as u8));
    out.push(#[verifier::truncate] (x as u8));
    assert(out@ =~= old(out)@ + spec_u32_be(x));
}

/// Appends the big-endian bytes of `x` to `out`.
pub fn push_u64_be(out: &mut Vec<u8>, x: u64)
    ensures
        final(out)@ == old(out)@ + spec_u64_be(x),
{
    out.push((x >> 56) as u8);
    out.push(#[verifier::truncate] ((x >> 48) as u8));
    out.push(#[verifier::truncate] ((x >> 40) as u8));
    out.push(#[verifier::truncate] ((x >> 32) as u8));
    out.push(#[verifier::truncate] ((x >> 24) as u8));
    out.push(#[verifier::truncate] ((x >> 16) as u8));
    out.push(#[verifier::truncate] ((x >> 8) as u8));
    out.push(#[verifier::truncate] (x as u8));
    assert(out@ =~= old(out)@ + spec_u64_be(x));
}

/// Appends the big-endian two's-complement bytes of `x` to `out`.
pub fn push_i32_be(out: &mut Vec<u8>, x: i32)
    ensures
        final(out)@ == old(out)@ + spec_i32_be(x),
{
    push_u32_be(out, #[verifier::truncate] (x as u32));
}

/// Appends the big-endian two's-complement bytes of `x` to `out`.
pub fn push_i64_be(out: &mut Vec<u8>, x: i64)
    ensures
        final(out)@ == old(out)@ + spec_i64_be(x),
{
    push_u64_be(out, #[verifier::truncate] (x as u64));
}

/// Reads the big-endian `u16` stored at `pos`.
pub fn read_u16_be(buf: &Vec<u8>, pos: usize) -> (x: u16)
    requires
        pos + 2 <= buf.len(),
    ensures
        x == spec_u16_from_be(buf@.subrange(pos as int, pos as int + 2)),
{
    let ghost b = buf@.subrange(pos as int, pos as int + 2);
    let x = ((buf[pos] as u16) << 8) | (buf[pos + 1] as u16);
    assert(b[0] == buf@[pos as int] && b[1] == buf@[pos as int + 1]);
    x
}

/// Reads the big-endian `u32` stored at `pos`.
pub fn read_u32_be(buf: &Vec<u8>, pos: usize) -> (x: u32)
    requires
        pos + 4 <= buf.len(),
    ensures
        x == spec_u32_from_be(buf@.subrange(pos as int, pos as int + 4)),
{
    let ghost b = buf@.subrange(pos as int, pos as int + 4);
    let x = ((buf[pos] as u32) << 24) | ((buf[pos + 1] as u32) << 16) | ((buf[pos + 2] as u32)
        << 8) | (buf[pos + 3] as u32);
    assert(b[0] == buf@[pos as int] && b[1] == buf@[pos as int + 1] && b[2] == buf@[pos as int + 2]
        && b[3] == buf@[pos as int + 3]);
    x
}

/// Reads the big-endian `u64` stored at `pos`.
pub fn read_u64_be(buf: &Vec<u8>, pos: usize) -> (x: u64)
    requires
        pos + 8 <= buf.len(),
    ensures
        x == spec_u64_from_be(buf@.subrange(pos as int, pos as int + 8)),
{
    let ghost b = buf@.subrange(pos as int, pos as int + 8);
    let x = ((buf[pos] as u64) << 56) | ((buf[pos + 1] as u64) << 48) | ((buf[pos + 2] as u64)
        << 40) | ((buf[pos + 3] as u64) << 32) | ((buf[pos + 4] as u64) << 24) | ((buf[pos
        + 5] as u64) << 16) | ((buf[pos + 6] as u64) << 8) | (buf[pos + 7] as u64);
    assert(b[0] == buf@[pos as int] && b[1] == buf@[pos as int + 1] && b[2] == buf@[pos as int + 2]
        && b[3] == buf@[pos as int + 3] && b[4] == buf@[pos as int + 4] && b[5] == buf@[pos as int
        + 5] && b[6] == buf@[pos as int + 6] && b[7] == buf@[pos as int + 7]);
    x
}

// ---------------------------------------------------------------------------
// UTF-8 bridge
// ---------------------------------------------------------------------------

/// Relies on `String::from_utf8`: it returns `Ok` exactly on valid UTF-8
/// input, and the returned string's characters are the decoding of the bytes.
#[verifier::external_body]
fn bytes_to_string(bytes: Vec<u8>) -> (r: Option<String>)
    ensures
        r is Some <==> valid_utf8(bytes@),
        r is Some ==> r->0@ == decode_utf8(bytes@),
{
    String::from_utf8(bytes).ok()
}

// ---------------------------------------------------------------------------
// Length-prefixed segments and strings
// ---------------------------------------------------------------------------

/// A byte segment fits its `u32` length prefix.
pub open spec fn bytes_encodable(b: Seq<u8>) -> bool {
    b.len() <= u32::MAX
}

/// A byte segment: `u32` big-endian count, then the bytes.
pub open spec fn spec_enc_bytes(b: Seq<u8>) -> Seq<u8>
    recommends
        bytes_encodable(b),
{
    spec_u32_be(b.len() as u32) + b
}

/// A string's UTF-8 bytes fit the segment length prefix.
pub open spec fn str_encodable(s: Seq<char>) -> bool {
    bytes_encodable(encode_utf8(s))
}

/// A string field: its UTF-8 bytes as a segment.
pub open spec fn spec_enc_str(s: Seq<char>) -> Seq<u8>
    recommends
        str_encodable(s),
{
    spec_enc_bytes(encode_utf8(s))
}

/// Splits one byte off the front.
pub open spec fn spec_take_u8(b: Seq<u8>) -> Option<(u8, Seq<u8>)> {
    if b.len() >= 1 {
        Option::Some((b[0], b.skip(1)))
    } else {
        Option::None
    }
}

/// Splits a big-endian `u16` off the front.
pub open spec fn spec_take_u16(b: Seq<u8>) -> Option<(u16, Seq<u8>)> {
    if b.len() >= 2 {
        Option::Some((spec_u16_from_be(b.take(2)), b.skip(2)))
    } else {
        Option::None
    }
}

/// Splits a big-endian `u32` off the front.
pub open spec fn spec_take_u32(b: Seq<u8>) -> Option<(u32, Seq<u8>)> {
    if b.len() >= 4 {
        Option::Some((spec_u32_from_be(b.take(4)), b.skip(4)))
    } else {
        Option::None
    }
}

/// Splits a big-endian `u64` off the front.
pub open spec fn spec_take_u64(b: Seq<u8>) -> Option<(u64, Seq<u8>)> {
    if b.len() >= 8 {
        Option::Some((spec_u64_from_be(b.take(8)), b.skip(8)))
    } else {
        Option::None
    }
}

/// Splits a big-endian two's-complement `i32` off the front.
pub open spec fn spec_take_i32(b: Seq<u8>) -> Option<(i32, Seq<u8>)> {
    match spec_take_u32(b) {
        Option::Some((x, rest)) => Option::Some((x as i32, rest)),
        Option::None => Option::None,
    }
}

/// Splits a big-endian two's-complement `i64` off the front.
pub open spec fn spec_take_i64(b: Seq<u8>) -> Option<(i64, Seq<u8>)> {
    match spec_take_u64(b) {
        Option::Some((x, rest)) => Option::Some((x as i64, rest)),
        Option::None => Option::None,
    }
}

/// Splits a length-prefixed byte segment off the front.
pub open spec fn spec_take_bytes(b: Seq<u8>) -> Option<(Seq<u8>, Seq<u8>)> {
    match spec_take_u32(b) {
        Option::Some((n, rest)) => if rest.len() >= n {
            Option::Some((rest.take(n as int), rest.skip(n as int)))
        } else {
            Option::None
        },
        Option::None => Option::None,
    }
}

/// Splits a string field off the front; the segment must be valid UTF-8.
pub open spec fn spec_take_str(b: Seq<u8>) -> Option<(Seq<char>, Seq<u8>)> {
    match spec_take_bytes(b) {
        Option::Some((bytes, rest)) => if valid_utf8(bytes) {
            Option::Some((decode_utf8(bytes), rest))
        } else {
            Option::None
        },
        Option::None => Option::None,
    }
}

/// Taking a `u8` undoes writing one.
pub proof fn lemma_take_u8(x: u8, rest: Seq<u8>)
    ensures
        spec_take_u8(seq![x] + rest) == Option::<(u8, Seq<u8>)>::Some((x, rest)),
{
    assert((seq![x] + rest).skip(1) =~= rest);
}

/// Taking a `u16` undoes writing one.
pub proof fn lemma_take_u16(x: u16, rest: Seq<u8>)
    ensures
        spec_take_u16(spec_u16_be(x) + rest) == Option::<(u16, Seq<u8>)>::Some((x, rest)),
{
    let b = spec_u16_be(x) + rest;
    assert(b.take(2) =~= spec_u16_be(x));
    assert(b.skip(2) =~= rest);
    lemma_u16_be_round_trip(x);
}

/// Taking a `u32` undoes writing one.
pub proof fn lemma_take_u32(x: u32, rest: Seq<u8>)
    ensures
        spec_take_u32(spec_u32_be(x) + rest) == Option::<(u32, Seq<u8>)>::Some((x, rest)),
{
    let b = spec_u32_be(x) + rest;
    assert(b.take(4) =~= spec_u32_be(x));
    assert(b.skip(4) =~= rest);
    lemma_u32_be_round_trip(x);
}

/// Taking a `u64` undoes writing one.
pub proof fn lemma_take_u64(x: u64, rest: Seq<u8>)
    ensures
        spec_take_u64(spec_u64_be(x) + rest) == Option::<(u64, Seq<u8>)>::Some((x, rest)),
{
    let b = spec_u64_be(x) + rest;
    assert(b.take(8) =~= spec_u64_be(x));
    assert(b.skip(8) =~= rest);
    lemma_u64_be_round_trip(x);
}

/// Taking an `i32` undoes writing one.
pub proof fn lemma_take_i32(x: i32, rest: Seq<u8>)
    ensures
        spec_take_i32(spec_i32_be(x) + rest) == Option::<(i32, Seq<u8>)>::Some((x, rest)),
{
    lemma_take_u32(x as u32, rest);
    lemma_i32_cast_round_trip(x);
}

/// Taking an `i64` undoes writing one.
pub proof fn lemma_take_i64(x: i64, rest: Seq<u8>)
    ensures
        spec_take_i64(spec_i64_be(x) + rest) == Option::<(i64, Seq<u8>)>::Some((x, rest)),
{
    lemma_take_u64(x as u64, rest);
    lemma_i64_cast_round_trip(x);
}

/// Taking a segment undoes writing one.
pub proof fn lemma_take_bytes(bs: Seq<u8>, rest: Seq<u8>)
    requires
        bytes_encodable(bs),
    ensures
        spec_take_bytes(spec_enc_bytes(bs) + rest) == Option::<(Seq<u8>, Seq<u8>)>::Some(
            (bs, rest),
        ),
{
    let n = bs.len() as u32;
    assert(spec_enc_bytes(bs) + rest =~= spec_u32_be(n) + (bs + rest));
    lemma_take_u32(n, bs + rest);
    assert((bs + rest).take(n as int) =~= bs);
    assert((bs + rest).skip(n as int) =~= rest);
}

/// Taking a string field undoes writing one.
pub proof fn lemma_take_str(s: Seq<char>, rest: Seq<u8>)
    requires
        str_encodable(s),
    ensures
        spec_take_str(spec_enc_str(s) + rest) == Option::<(Seq<char>, Seq<u8>)>::Some((s, rest)),
{
    lemma_take_bytes(encode_utf8(s), rest);
    vstd::utf8::encode_utf8_valid_utf8(s);
    vstd::utf8::encode_utf8_decode_utf8(s);
}

/// Appends `bytes` as a length-prefixed segment, or leaves `out` unchanged
/// when the segment would not fit its length prefix.
pub fn push_bytes(out: &mut Vec<u8>, bytes: &Vec<u8>) -> (ok: bool)
    ensures
        ok <==> bytes_encodable(bytes@),
        ok ==> final(out)@ == old(out)@ + spec_enc_bytes(bytes@),
        !ok ==> final(out)@ == old(out)@,
{
    let n = bytes.len();
    if n > u32::MAX as usize {
        return false;
    }
    push_u32_be(out, n as u32);
    out.extend_from_slice(bytes.as_slice());
    assert(out@ =~= old(out)@ + spec_enc_bytes(bytes@));
    true
}

/// Appends a string field, or leaves `out` unchanged when the string's UTF-8
/// bytes would not fit the length prefix.
pub fn push_str_field(out: &mut Vec<u8>, s: &String) -> (ok: bool)
    ensures
        ok <==> str_encodable(s@),
        ok ==> final(out)@ == old(out)@ + spec_enc_str(s@),
        !ok ==> final(out)@ == old(out)@,
{
    let bytes = s.as_str().as_bytes_vec();
    push_bytes(out, &bytes)
}

/// Reads the length-prefixed segment at `pos`; `None` when the buffer ends
/// before the segment does.
pub fn read_segment(buf: &Vec<u8>, pos: usize) -> (r: Option<(Vec<u8>, usize)>)
    requires
        pos <= buf.len(),
    ensures
        match r {
            Option::Some((seg, end)) => {
                &&& pos <= end <= buf.len()
                &&& spec_take_bytes(buf@.skip(pos as int)) == Option::<(Seq<u8>, Seq<u8>)>::Some(
                    (seg@, buf@.skip(end as int)),
                )
            },
            Option::None => spec_take_bytes(buf@.skip(pos as int)) is None,
        },
{
    let ghost tail = buf@.skip(pos as int);
    if buf.len() - pos < 4 {
        return None;
    }
    let n = read_u32_be(buf, pos);
    assert(tail.take(4) =~= buf@.subrange(pos as int, pos as int + 4));
    assert(tail.skip(4) =~= buf@.skip(pos as int + 4));
    let body = pos + 4;
    if (buf.len() - body) < n as usize {
        return None;
    }
    let len = n as usize;
    let mut seg: Vec<u8> = Vec::new();
    let mut i: usize = 0;
    while i < len
        invariant
            body + len <= buf.len(),
            i <= len,
            seg@ =~= buf@.subrange(body as int, body as int + i as int),
        decreases len - i,
    {
        seg.push(buf[body + i]);
        i = i + 1;
    }
    let end = body + len;
    assert(seg@ =~= tail.skip(4).take(n as int));
    assert(buf@.skip(end as int) =~= tail.skip(4).skip(n as int));
    Some((seg, end))
}

/// Reads the string field at `pos`; `None` when the segment is incomplete or
/// is not valid UTF-8.
pub fn read_string_field(buf: &Vec<u8>, pos: usize) -> (r: Option<(String, usize)>)
    requires
        pos <= buf.len(),
    ensures
        match r {
            Option::Some((s, end)) => {
                &&& pos <= end <= buf.len()
                &&& spec_take_str(buf@.skip(pos as int)) == Option::<(Seq<char>, Seq<u8>)>::Some(
                    (s@, buf@.skip(end as int)),
                )
            },
            Option::None => spec_take_str(buf@.skip(pos as int)) is None,
        },
{
    match read_segment(buf, pos) {
        Option::None => Option::None,
        Option::Some((seg, end)) => match bytes_to_string(seg) {
            Option::None => Option::None,
            Option::Some(s) => Option::Some((s, end)),
        },
    }
}

// ---------------------------------------------------------------------------
// Optional fields and return-code lists
// ---------------------------------------------------------------------------

/// An optional string fits its encoding.
pub open spec fn opt_str_encodable(o: Option<Seq<char>>) -> bool {
    match o {
        Option::Some(s) => str_encodable(s),
        Option::None => true,
    }
}

/// An optional string: a presence byte, then the string when present.
pub open spec fn spec_enc_opt_str(o: Option<Seq<char>>) -> Seq<u8>
    recommends
        opt_str_encodable(o),
{
    match o {
        Option::None => seq![0u8],
        Option::Some(s) => seq![1u8] + spec_enc_str(s),
    }
}

/// A return-code list fits its `u32` count prefix.
pub open spec fn codes_encodable(v: Seq<i32>) -> bool {
    v.len() <= u32::MAX
}

/// The concatenated big-endian items of a return-code list.
pub open spec fn spec_enc_code_items(v: Seq<i32>) -> Seq<u8>
    decreases v.len(),
{
    if v.len() == 0 {
        Seq::empty()
    } else {
        spec_i32_be(v[0]) + spec_enc_code_items(v.drop_first())
    }
}

/// A return-code list: `u32` big-endian count, then the items.
pub open spec fn spec_enc_codes(v: Seq<i32>) -> Seq<u8>
    recommends
        codes_encodable(v),
{
    spec_u32_be(v.len() as u32) + spec_enc_code_items(v)
}

/// An optional return-code list fits its encoding.
pub open spec fn opt_codes_encodable(o: Option<Seq<i32>>) -> bool {
    match o {
        Option::Some(v) => codes_encodable(v),
        Option::None => true,
    }
}

/// An optional return-code list: a presence byte, then the list when present.
pub open spec fn spec_enc_opt_codes(o: Option<Seq<i32>>) -> Seq<u8>
    recommends
        opt_codes_encodable(o),
{
    match o {
        Option::None => seq![0u8],
        Option::Some(v) => seq![1u8] + spec_enc_codes(v),
    }
}

/// Splits an optional string off the front.
pub open spec fn spec_take_opt_str(b: Seq<u8>) -> Option<(Option<Seq<char>>, Seq<u8>)> {
    match spec_take_u8(b) {
        Option::Some((tag, rest)) => if tag == 0 {
            Option::Some((Option::None, rest))
        } else if tag == 1 {
            match spec_take_str(rest) {
                Option::Some((s, r2)) => Option::Some((Option::Some(s), r2)),
                Option::None => Option::None,
            }
        } else {
            Option::None
        },
        Option::None => Option::None,
    }
}

/// Splits `n` big-endian `i32` items off the front.
pub open spec fn spec_take_code_items(n: nat, b: Seq<u8>) -> Option<(Seq<i32>, Seq<u8>)>
    decreases n,
{
    if n == 0 {
        Option::Some((Seq::empty(), b))
    } else {
        match spec_take_i32(b) {
            Option::Some((x, rest)) => match spec_take_code_items((n - 1) as nat, rest) {
                Option::Some((v, r2)) => Option::Some((seq![x] + v, r2)),
                Option::None => Option::None,
            },
            Option::None => Option::None,
        }
    }
}

/// Splits a counted return-code list off the front.
pub open spec fn spec_take_codes(b: Seq<u8>) -> Option<(Seq<i32>, Seq<u8>)> {
    match spec_take_u32(b) {
        Option::Some((n, rest)) => spec_take_code_items(n as nat, rest),
        Option::None => Option::None,
    }
}

/// Splits an optional return-code list off the front.
pub open spec fn spec_take_opt_codes(b: Seq<u8>) -> Option<(Option<Seq<i32>>, Seq<u8>)> {
    match spec_take_u8(b) {
        Option::Some((tag, rest)) => if tag == 0 {
            Option::Some((Option::None, rest))
        } else if tag == 1 {
            match spec_take_codes(rest) {
                Option::Some((v, r2)) => Option::Some((Option::Some(v), r2)),
                Option::None => Option::None,
            }
        } else {
            Option::None
        },
        Option::None => Option::None,
    }
}

/// Taking an optional string undoes writing one.
pub proof fn lemma_take_opt_str(o: Option<Seq<char>>, rest: Seq<u8>)
    requires
        opt_str_encodable(o),
    ensures
        spec_take_opt_str(spec_enc_opt_str(o) + rest) == Option::<(
            Option<Seq<char>>,
            Seq<u8>,
        )>::Some((o, rest)),
{
    match o {
        Option::None => {
            lemma_take_u8(0, rest);
            assert(spec_enc_opt_str(o) + rest =~= seq![0u8] + rest);
        },
        Option::Some(s) => {
            assert(spec_enc_opt_str(o) + rest =~= seq![1u8] + (spec_enc_str(s) + rest));
            lemma_take_u8(1, spec_enc_str(s) + rest);
            lemma_take_str(s, rest);
        },
    }
}

/// Appending one item to a return-code list appends its bytes.
pub proof fn lemma_enc_code_items_push(v: Seq<i32>, x: i32)
    ensures
        spec_enc_code_items(v.push(x)) == spec_enc_code_items(v) + spec_i32_be(x),
    decreases v.len(),
{
    if v.len() == 0 {
        assert(v.push(x).drop_first() =~= Seq::empty());
        assert(v.push(x)[0] == x);
        assert(spec_enc_code_items(v.push(x)) == spec_i32_be(x) + spec_enc_code_items(
            Seq::empty(),
        ));
        assert(spec_enc_code_items(v.push(x)) =~= spec_enc_code_items(v) + spec_i32_be(x));
    } else {
        assert(v.push(x).drop_first() =~= v.drop_first().push(x));
        assert(v.push(x)[0] == v[0]);
        assert(spec_enc_code_items(v.push(x)) == spec_i32_be(v[0]) + spec_enc_code_items(
            v.drop_first().push(x),
        ));
        lemma_enc_code_items_push(v.drop_first(), x);
        assert(spec_enc_code_items(v.push(x)) =~= spec_enc_code_items(v) + spec_i32_be(x));
    }
}

/// Taking `v.len()` items undoes writing them.
pub proof fn lemma_take_code_items(v: Seq<i32>, rest: Seq<u8>)
    ensures
        spec_take_code_items(v.len(), spec_enc_code_items(v) + rest) == Option::<(
            Seq<i32>,
            Seq<u8>,
        )>::Some((v, rest)),
    decreases v.len(),
{
    if v.len() == 0 {
        assert(spec_enc_code_items(v) + rest =~= rest);
        assert(v =~= Seq::<i32>::empty());
    } else {
        assert(spec_enc_code_items(v) + rest =~= spec_i32_be(v[0]) + (spec_enc_code_items(
            v.drop_first(),
        ) + rest));
        lemma_take_i32(v[0], spec_enc_code_items(v.drop_first()) + rest);
        lemma_take_code_items(v.drop_first(), rest);
        assert(seq![v[0]] + v.drop_first() =~= v);
    }
}

/// Taking a counted return-code list undoes writing one.
pub proof fn lemma_take_codes(v: Seq<i32>, rest: Seq<u8>)
    requires
        codes_encodable(v),
    ensures
        spec_take_codes(spec_enc_codes(v) + rest) == Option::<(Seq<i32>, Seq<u8>)>::Some(
            (v, rest),
        ),
{
    assert(spec_enc_codes(v) + rest =~= spec_u32_be(v.len() as u32) + (spec_enc_code_items(v)
        + rest));
    lemma_take_u32(v.len() as u32, spec_enc_code_items(v) + rest);
    lemma_take_code_items(v, rest);
}

/// Taking an optional return-code list undoes writing one.
pub proof fn lemma_take_opt_codes(o: Option<Seq<i32>>, rest: Seq<u8>)
    requires
        opt_codes_encodable(o),
    ensures
        spec_take_opt_codes(spec_enc_opt_codes(o) + rest) == Option::<(
            Option<Seq<i32>>,
            Seq<u8>,
        )>::Some((o, rest)),
{
    match o {
        Option::None => {
            lemma_take_u8(0, rest);
            assert(spec_enc_opt_codes(o) + rest =~= seq![0u8] + rest);
        },
        Option::Some(v) => {
            assert(spec_enc_opt_codes(o) + rest =~= seq![1u8] + (spec_enc_codes(v) + rest));
            lemma_take_u8(1, spec_enc_codes(v) + rest);
            lemma_take_codes(v, rest);
        },
    }
}

// ---------------------------------------------------------------------------
// Messages
// ---------------------------------------------------------------------------

/// Wire tag of the `Ping` variant.
pub const TAG_PING: u8 = 0;

/// Wire tag of the `RegisterAgent` variant.
pub const TAG_REGISTER_AGENT: u8 = 1;

/// Wire tag of the `DispatchJob` variant.
pub const TAG_DISPATCH_JOB: u8 = 2;

/// Wire tag of the `JobComplete` variant.
pub const TAG_JOB_COMPLETE: u8 = 3;

/// Wire byte of an outcome.
pub open spec fn spec_outcome_byte(o: JobOutCome) -> u8 {
    match o {
        JobOutCome::Failure => 0,
        JobOutCome::Success => 1,
        JobOutCome::Unknown => 2,
    }
}

/// Splits an outcome byte off the front.
pub open spec fn spec_take_outcome(b: Seq<u8>) -> Option<(JobOutCome, Seq<u8>)> {
    match spec_take_u8(b) {
        Option::Some((t, rest)) => if t == 0 {
            Option::Some((JobOutCome::Failure, rest))
        } else if t == 1 {
            Option::Some((JobOutCome::Success, rest))
        } else if t == 2 {
            Option::Some((JobOutCome::Unknown, rest))
        } else {
            Option::None
        },
        Option::None => Option::None,
    }
}

/// Taking an outcome byte undoes writing one.
pub proof fn lemma_take_outcome(o: JobOutCome, rest: Seq<u8>)
    ensures
        spec_take_outcome(seq![spec_outcome_byte(o)] + rest) == Option::<(
            JobOutCome,
            Seq<u8>,
        )>::Some((o, rest)),
{
    lemma_take_u8(spec_outcome_byte(o), rest);
}

/// Every variable-length field of the message fits its length prefix.
pub open spec fn msg_encodable(m: MessageView) -> bool {
    match m {
        MessageView::Ping => true,
        MessageView::RegisterAgent(r) => str_encodable(r.name) && str_encodable(r.hostname),
        MessageView::DispatchJob(d) => str_encodable(d.job_name) && str_encodable(d.command)
            && str_encodable(d.args) && opt_str_encodable(d.agent_name) && opt_codes_encodable(
            d.valid_return_codes,
        ),
        MessageView::JobComplete(c) => str_encodable(c.job_name) && str_encodable(c.command)
            && str_encodable(c.agent_name) && str_encodable(c.output),
    }
}

/// The encoding of a message: a tag byte, then the variant's fields in
/// declaration order.
pub open spec fn spec_encode(m: MessageView) -> Seq<u8>
    recommends
        msg_encodable(m),
{
    match m {
        MessageView::Ping => seq![TAG_PING],
        MessageView::RegisterAgent(r) => seq![TAG_REGISTER_AGENT] + spec_enc_str(r.name)
            + spec_enc_str(r.hostname) + spec_u16_be(r.port),
        MessageView::DispatchJob(d) => seq![TAG_DISPATCH_JOB] + spec_enc_str(d.job_name)
            + spec_enc_str(d.command) + spec_enc_str(d.args) + spec_enc_opt_str(d.agent_name)
            + spec_enc_opt_codes(d.valid_return_codes),
        MessageView::JobComplete(c) => seq![TAG_JOB_COMPLETE] + spec_i64_be(c.started_at)
            + spec_i64_be(c.completed_at) + spec_enc_str(c.job_name) + spec_enc_str(c.command)
            + spec_enc_str(c.agent_name) + spec_i32_be(c.return_code) + seq![
            spec_outcome_byte(c.outcome),
        ] + spec_enc_str(c.output),
    }
}

/// Decodes the fields of a `RegisterAgent` message.
pub open spec fn spec_decode_register(b: Seq<u8>) -> Option<MessageView> {
    match spec_take_str(b) {
        Option::Some((name, r1)) => match spec_take_str(r1) {
            Option::Some((hostname, r2)) => match spec_take_u16(r2) {
                Option::Some((port, r3)) => if r3.len() == 0 {
                    Option::Some(
                        MessageView::RegisterAgent(RegisterAgentView { name, hostname, port }),
                    )
                } else {
                    Option::None
                },
                Option::None => Option::None,
            },
            Option::None => Option::None,
        },
        Option::None => Option::None,
    }
}

/// Decodes the fields of a `DispatchJob` message.
pub open spec fn spec_decode_dispatch(b: Seq<u8>) -> Option<MessageView> {
    match spec_take_str(b) {
        Option::Some((job_name, r1)) => match spec_take_str(r1) {
            Option::Some((command, r2)) => match spec_take_str(r2) {
                Option::Some((args, r3)) => match spec_take_opt_str(r3) {
                    Option::Some((agent_name, r4)) => match spec_take_opt_codes(r4) {
                        Option::Some((valid_return_codes, r5)) => if r5.len() == 0 {
                            Option::Some(
                                MessageView::DispatchJob(
                                    DispatchJobView {
                                        job_name,
                                        command,
                                        args,
                                        agent_name,
                                        valid_return_codes,
                                    },
                                ),
                            )
                        } else {
                            Option::None
                        },
                        Option::None => Option::None,
                    },
                    Option::None => Option::None,
                },
                Option::None => Option::None,
            },
            Option::None => Option::None,
        },
        Option::None => Option::None,
    }
}

/// Decodes the fields of a `JobComplete` message.
pub open spec fn spec_decode_complete(b: Seq<u8>) -> Option<MessageView> {
    match spec_take_i64(b) {
        Option::Some((started_at, r1)) => match spec_take_i64(r1) {
            Option::Some((completed_at, r2)) => match spec_take_str(r2) {
                Option::Some((job_name, r3)) => match spec_take_str(r3) {
                    Option::Some((command, r4)) => match spec_take_str(r4) {
                        Option::Some((agent_name, r5)) => match spec_take_i32(r5) {
                            Option::Some((return_code, r6)) => match spec_take_outcome(r6) {
                                Option::Some((outcome, r7)) => match spec_take_str(r7) {
                                    Option::Some((output, r8)) => if r8.len() == 0 {
                                        Option::Some(
                                            MessageView::JobComplete(
                                                JobCompleteView {
                                                    started_at,
                                                    completed_at,
                                                    job_name,
                                                    command,
                                                    agent_name,
                                                    return_code,
                                                    outcome,
                                                    output,
                                                },
                                            ),
                                        )
                                    } else {
                                        Option::None
                                    },
                                    Option::None => Option::None,
                                },
                                Option::None => Option::None,
                            },
                            Option::None => Option::None,
                        },
                        Option::None => Option::None,
                    },
                    Option::None => Option::None,
                },
                Option::None => Option::None,
            },
            Option::None => Option::None,
        },
        Option::None => Option::None,
    }
}

/// The decoder: a total function from byte strings to messages, `None` on
/// anything the encoder cannot have produced.
pub open spec fn spec_decode(b: Seq<u8>) -> Option<MessageView> {
    match spec_take_u8(b) {
        Option::Some((tag, rest)) => if tag == TAG_PING {
            if rest.len() == 0 {
                Option::Some(MessageView::Ping)
            } else {
                Option::None
            }
        } else if tag == TAG_REGISTER_AGENT {
            spec_decode_register(rest)
        } else if tag == TAG_DISPATCH_JOB {
            spec_decode_dispatch(rest)
        } else if tag == TAG_JOB_COMPLETE {
            spec_decode_complete(rest)
        } else {
            Option::None
        },
        Option::None => Option::None,
    }
}

proof fn lemma_decode_encode_register(r: RegisterAgentView)
    requires
        msg_encodable(MessageView::RegisterAgent(r)),
    ensures
        spec_decode(spec_encode(MessageView::RegisterAgent(r))) == Option::<MessageView>::Some(
            MessageView::RegisterAgent(r),
        ),
{
    let b = spec_encode(MessageView::RegisterAgent(r));
    let f1 = spec_enc_str(r.name);
    let f2 = spec_enc_str(r.hostname);
    let f3 = spec_u16_be(r.port);
    assert(b =~= seq![TAG_REGISTER_AGENT] + (f1 + (f2 + f3)));
    lemma_take_u8(TAG_REGISTER_AGENT, f1 + (f2 + f3));
    assert(f1 + (f2 + f3) =~= spec_enc_str(r.name) + (f2 + f3));
    lemma_take_str(r.name, f2 + f3);
    assert(f2 + f3 =~= spec_enc_str(r.hostname) + f3);
    lemma_take_str(r.hostname, f3);
    assert(f3 =~= spec_u16_be(r.port) + Seq::<u8>::empty());
    lemma_take_u16(r.port, Seq::empty());
}

proof fn lemma_decode_encode_dispatch(d: DispatchJobView)
    requires
        msg_encodable(MessageView::DispatchJob(d)),
    ensures
        spec_decode(spec_encode(MessageView::DispatchJob(d))) == Option::<MessageView>::Some(
            MessageView::DispatchJob(d),
        ),
{
    let b = spec_encode(MessageView::DispatchJob(d));
    let f1 = spec_enc_str(d.job_name);
    let f2 = spec_enc_str(d.command);
    let f3 = spec_enc_str(d.args);
    let f4 = spec_enc_opt_str(d.agent_name);
    let f5 = spec_enc_opt_codes(d.valid_return_codes);
    assert(b =~= seq![TAG_DISPATCH_JOB] + (f1 + (f2 + (f3 + (f4 + f5)))));
    lemma_take_u8(TAG_DISPATCH_JOB, f1 + (f2 + (f3 + (f4 + f5))));
    assert(f1 + (f2 + (f3 + (f4 + f5))) =~= spec_enc_str(d.job_name) + (f2 + (f3 + (f4 + f5))));
    lemma_take_str(d.job_name, f2 + (f3 + (f4 + f5)));
    assert(f2 + (f3 + (f4 + f5)) =~= spec_enc_str(d.command) + (f3 + (f4 + f5)));
    lemma_take_str(d.command, f3 + (f4 + f5));
    assert(f3 + (f4 + f5) =~= spec_enc_str(d.args) + (f4 + f5));
    lemma_take_str(d.args, f4 + f5);
    assert(f4 + f5 =~= spec_enc_opt_str(d.agent_name) + f5);
    lemma_take_opt_str(d.agent_name, f5);
    assert(f5 =~= spec_enc_opt_codes(d.valid_return_codes) + Seq::<u8>::empty());
    lemma_take_opt_codes(d.valid_return_codes, Seq::empty());
}

#[verifier::rlimit(50)]
proof fn lemma_decode_encode_complete(c: JobCompleteView)
    requires
        msg_encodable(MessageView::JobComplete(c)),
    ensures
        spec_decode(spec_encode(MessageView::JobComplete(c))) == Option::<MessageView>::Some(
            MessageView::JobComplete(c),
        ),
{
    let b = spec_encode(MessageView::JobComplete(c));
    let f1 = spec_i64_be(c.started_at);
    let f2 = spec_i64_be(c.completed_at);
    let f3 = spec_enc_str(c.job_name);
    let f4 = spec_enc_str(c.command);
    let f5 = spec_enc_str(c.agent_name);
    let f6 = spec_i32_be(c.return_code);
    let f7 = seq![spec_outcome_byte(c.outcome)];
    let f8 = spec_enc_str(c.output);
    assert(b =~= seq![TAG_JOB_COMPLETE] + (f1 + (f2 + (f3 + (f4 + (f5 + (f6 + (f7 + f8))))))));
    lemma_take_u8(TAG_JOB_COMPLETE, f1 + (f2 + (f3 + (f4 + (f5 + (f6 + (f7 + f8)))))));
    assert(f1 + (f2 + (f3 + (f4 + (f5 + (f6 + (f7 + f8)))))) =~= spec_i64_be(c.started_at) + (f2
        + (f3 + (f4 + (f5 + (f6 + (f7 + f8)))))));
    lemma_take_i64(c.started_at, f2 + (f3 + (f4 + (f5 + (f6 + (f7 + f8))))));
    assert(f2 + (f3 + (f4 + (f5 + (f6 + (f7 + f8))))) =~= spec_i64_be(c.completed_at) + (f3 + (f4
        + (f5 + (f6 + (f7 + f8))))));
    lemma_take_i64(c.completed_at, f3 + (f4 + (f5 + (f6 + (f7 + f8)))));
    assert(f3 + (f4 + (f5 + (f6 + (f7 + f8)))) =~= spec_enc_str(c.job_name) + (f4 + (f5 + (f6 + (f7
        + f8)))));
    lemma_take_str(c.job_name, f4 + (f5 + (f6 + (f7 + f8))));
    assert(f4 + (f5 + (f6 + (f7 + f8))) =~= spec_enc_str(c.command) + (f5 + (f6 + (f7 + f8))));
    lemma_take_str(c.command, f5 + (f6 + (f7 + f8)));
    assert(f5 + (f6 + (f7 + f8)) =~= spec_enc_str(c.agent_name) + (f6 + (f7 + f8)));
    lemma_take_str(c.agent_name, f6 + (f7 + f8));
    assert(f6 + (f7 + f8) =~= spec_i32_be(c.return_code) + (f7 + f8));
    lemma_take_i32(c.return_code, f7 + f8);
    assert(f7 + f8 =~= seq![spec_outcome_byte(c.outcome)] + f8);
    lemma_take_outcome(c.outcome, f8);
    assert(f8 =~= spec_enc_str(c.output) + Seq::<u8>::empty());
    lemma_take_str(c.output, Seq::empty());
}

/// Decoding any byte string the encoder produces yields the encoded message
/// back: the encode/decode round trip.
pub proof fn lemma_decode_encode(m: MessageView)
    requires
        msg_encodable(m),
    ensures
        spec_decode(spec_encode(m)) == Option::<MessageView>::Some(m),
{
    match m {
        MessageView::Ping => {
            lemma_take_u8(TAG_PING, Seq::empty());
            assert(spec_encode(m) =~= seq![TAG_PING] + Seq::<u8>::empty());
        },
        MessageView::RegisterAgent(r) => lemma_decode_encode_register(r),
        MessageView::DispatchJob(d) => lemma_decode_encode_dispatch(d),
        MessageView::JobComplete(c) => lemma_decode_encode_complete(c),
    }
}

// ---------------------------------------------------------------------------
// Executable encoder
// ---------------------------------------------------------------------------

/// Appends an optional string field; fails only when the string does not fit.
fn push_opt_str_field(out: &mut Vec<u8>, o: &Option<String>) -> (ok: bool)
    ensures
        ok <==> opt_str_encodable(spec_opt_str_view(o)),
        ok ==> final(out)@ == old(out)@ + spec_enc_opt_str(spec_opt_str_view(o)),
        !ok ==> final(out)@ == old(out)@,
{
    match o {
        Option::None => {
            out.push(0u8);
            assert(out@ =~= old(out)@ + spec_enc_opt_str(spec_opt_str_view(o)));
            true
        },
        Option::Some(s) => {
            let ghost before = out@;
            out.push(1u8);
            if push_str_field(out, s) {
                assert(out@ =~= before + spec_enc_opt_str(spec_opt_str_view(o)));
                true
            } else {
                let _ = out.pop();
                assert(out@ =~= before);
                false
            }
        },
    }
}

/// The view of an optional string.
pub open spec fn spec_opt_str_view(o: &Option<String>) -> Option<Seq<char>> {
    match o {
        Option::Some(s) => Option::Some(s@),
        Option::None => Option::None,
    }
}

/// The view of an optional return-code list.
pub open spec fn spec_opt_codes_view(o: &Option<Vec<i32>>) -> Option<Seq<i32>> {
    match o {
        Option::Some(v) => Option::Some(v@),
        Option::None => Option::None,
    }
}

/// Appends a counted return-code list; fails only when the count does not
/// fit its prefix.
fn push_codes(out: &mut Vec<u8>, codes: &Vec<i32>) -> (ok: bool)
    ensures
        ok <==> codes_encodable(codes@),
        ok ==> final(out)@ == old(out)@ + spec_enc_codes(codes@),
        !ok ==> final(out)@ == old(out)@,
{
    let n = codes.len();
    if n > u32::MAX as usize {
        return false;
    }
    push_u32_be(out, n as u32);
    let ghost base = out@;
    let mut i: usize = 0;
    while i < n
        invariant
            i <= n,
            n == codes.len(),
            out@ == base + spec_enc_code_items(codes@.take(i as int)),
        decreases n - i,
    {
        let ghost prefix = codes@.take(i as int);
        push_i32_be(out, codes[i]);
        proof {
            lemma_enc_code_items_push(prefix, codes@[i as int]);
            assert(codes@.take(i as int + 1) =~= prefix.push(codes@[i as int]));
        }
        i = i + 1;
    }
    proof {
        assert(codes@.take(n as int) =~= codes@);
        assert(out@ =~= old(out)@ + spec_enc_codes(codes@));
    }
    true
}

/// Appends an optional return-code list; fails only when the list does not
/// fit.
fn push_opt_codes(out: &mut Vec<u8>, o: &Option<Vec<i32>>) -> (ok: bool)
    ensures
        ok <==> opt_codes_encodable(spec_opt_codes_view(o)),
        ok ==> final(out)@ == old(out)@ + spec_enc_opt_codes(spec_opt_codes_view(o)),
        !ok ==> final(out)@ == old(out)@,
{
    match o {
        Option::None => {
            out.push(0u8);
            assert(out@ =~= old(out)@ + spec_enc_opt_codes(spec_opt_codes_view(o)));
            true
        },
        Option::Some(v) => {
            let ghost before = out@;
            out.push(1u8);
            if push_codes(out, v) {
                assert(out@ =~= before + spec_enc_opt_codes(spec_opt_codes_view(o)));
                true
            } else {
                let _ = out.pop();
                assert(out@ =~= before);
                false
            }
        },
    }
}

/// Encodes a message for the wire. Fails, with `SerializationError`, exactly
/// when some variable-length field overflows its `u32` length prefix.
pub fn encode_message(m: &Message) -> (r: Result<Vec<u8>, MessageError>)
    ensures
        match r {
            Result::Ok(bytes) => msg_encodable(m@) && bytes@ == spec_encode(m@),
            Result::Err(e) => !msg_encodable(m@) && e == MessageError::SerializationError,
        },
{
    match m {
        Message::Ping => {
            let mut out: Vec<u8> = Vec::new();
            out.push(TAG_PING);
            assert(out@ =~= spec_encode(m@));
            Result::Ok(out)
        },
        Message::RegisterAgent(r) => {
            let mut out: Vec<u8> = Vec::new();
            out.push(TAG_REGISTER_AGENT);
            if !push_str_field(&mut out, &r.name) {
                return Result::Err(MessageError::SerializationError);
            }
            if !push_str_field(&mut out, &r.hostname) {
                return Result::Err(MessageError::SerializationError);
            }
            push_u16_be(&mut out, r.port);
            assert(out@ =~= spec_encode(m@));
            Result::Ok(out)
        },
        Message::DispatchJob(d) => {
            let mut out: Vec<u8> = Vec::new();
            out.push(TAG_DISPATCH_JOB);
            if !push_str_field(&mut out, &d.job_name) {
                return Result::Err(MessageError::SerializationError);
            }
            if !push_str_field(&mut out, &d.command) {
                return Result::Err(MessageError::SerializationError);
            }
            if !push_str_field(&mut out, &d.args) {
                return Result::Err(MessageError::SerializationError);
            }
            if !push_opt_str_field(&mut out, &d.agent_name) {
                return Result::Err(MessageError::SerializationError);
            }
            if !push_opt_codes(&mut out, &d.valid_return_codes) {
                return Result::Err(MessageError::SerializationError);
            }
            assert(out@ =~= spec_encode(m@));
            Result::Ok(out)
        },
        Message::JobComplete(c) => {
            let mut out: Vec<u8> = Vec::new();
            out.push(TAG_JOB_COMPLETE);
            push_i64_be(&mut out, c.started_at);
            push_i64_be(&mut out, c.completed_at);
            if !push_str_field(&mut out, &c.job_name) {
                return Result::Err(MessageError::SerializationError);
            }
            if !push_str_field(&mut out, &c.command) {
                return Result::Err(MessageError::SerializationError);
            }
            if !push_str_field(&mut out, &c.agent_name) {
                return Result::Err(MessageError::SerializationError);
            }
            push_i32_be(&mut out, c.return_code);
            out.push(c.outcome.code() as u8);
            assert(c.outcome.spec_code() as u8 == spec_outcome_byte(c.outcome));
            if !push_str_field(&mut out, &c.output) {
                return Result::Err(MessageError::SerializationError);
            }
            assert(out@ =~= spec_encode(m@));
            Result::Ok(out)
        },
    }
}

// ---------------------------------------------------------------------------
// Executable decoder
// ---------------------------------------------------------------------------

/// Reads the byte at `pos` and advances.
fn take_u8_exec(buf: &Vec<u8>, pos: usize) -> (r: Option<(u8, usize)>)
    requires
        pos <= buf.len(),
    ensures
        match r {
            Option::Some((x, end)) => {
                &&& pos <= end <= buf.len()
                &&& spec_take_u8(buf@.skip(pos as int)) == Option::<(u8, Seq<u8>)>::Some(
                    (x, buf@.skip(end as int)),
                )
            },
            Option::None => spec_take_u8(buf@.skip(pos as int)) is None,
        },
{
    if buf.len() - pos < 1 {
        return Option::None;
    }
    let x = buf[pos];
    assert(buf@.skip(pos as int)[0] == buf@[pos as int]);
    assert(buf@.skip(pos as int).skip(1) =~= buf@.skip(pos as int + 1));
    Option::Some((x, pos + 1))
}

/// Reads the big-endian `u16` at `pos` and advances.
fn take_u16_exec(buf: &Vec<u8>, pos: usize) -> (r: Option<(u16, usize)>)
    requires
        pos <= buf.len(),
    ensures
        match r {
            Option::Some((x, end)) => {
                &&& pos <= end <= buf.len()
                &&& spec_take_u16(buf@.skip(pos as int)) == Option::<(u16, Seq<u8>)>::Some(
                    (x, buf@.skip(end as int)),
                )
            },
            Option::None => spec_take_u16(buf@.skip(pos as int)) is None,
        },
{
    if buf.len() - pos < 2 {
        return Option::None;
    }
    let x = read_u16_be(buf, pos);
    assert(buf@.skip(pos as int).take(2) =~= buf@.subrange(pos as int, pos as int + 2));
    assert(buf@.skip(pos as int).skip(2) =~= buf@.skip(pos as int + 2));
    Option::Some((x, pos + 2))
}

/// Reads the big-endian `u32` at `pos` and advances.
fn take_u32_exec(buf: &Vec<u8>, pos: usize) -> (r: Option<(u32, usize)>)
    requires
        pos <= buf.len(),
    ensures
        match r {
            Option::Some((x, end)) => {
                &&& pos <= end <= buf.len()
                &&& spec_take_u32(buf@.skip(pos as int)) == Option::<(u32, Seq<u8>)>::Some(
                    (x, buf@.skip(end as int)),
                )
            },
            Option::None => spec_take_u32(buf@.skip(pos as int)) is None,
        },
{
    if buf.len() - pos < 4 {
        return Option::None;
    }
    let x = read_u32_be(buf, pos);
    assert(buf@.skip(pos as int).take(4) =~= buf@.subrange(pos as int, pos as int + 4));
    assert(buf@.skip(pos as int).skip(4) =~= buf@.skip(pos as int + 4));
    Option::Some((x, pos + 4))
}

/// Reads the big-endian `i32` at `pos` and advances.
fn take_i32_exec(buf: &Vec<u8>, pos: usize) -> (r: Option<(i32, usize)>)
    requires
        pos <= buf.len(),
    ensures
        match r {
            Option::Some((x, end)) => {
                &&& pos <= end <= buf.len()
                &&& spec_take_i32(buf@.skip(pos as int)) == Option::<(i32, Seq<u8>)>::Some(
                    (x, buf@.skip(end as int)),
                )
            },
            Option::None => spec_take_i32(buf@.skip(pos as int)) is None,
        },
{
    match take_u32_exec(buf, pos) {
        Option::Some((x, end)) => Option::Some((#[verifier::truncate] (x as i32), end)),
        Option::None => Option::None,
    }
}

/// Reads the big-endian `i64` at `pos` and advances.
fn take_i64_exec(buf: &Vec<u8>, pos: usize) -> (r: Option<(i64, usize)>)
    requires
        pos <= buf.len(),
    ensures
        match r {
            Option::Some((x, end)) => {
                &&& pos <= end <= buf.len()
                &&& spec_take_i64(buf@.skip(pos as int)) == Option::<(i64, Seq<u8>)>::Some(
                    (x, buf@.skip(end as int)),
                )
            },
            Option::None => spec_take_i64(buf@.skip(pos as int)) is None,
        },
{
    if buf.len() - pos < 8 {
        return Option::None;
    }
    let x = read_u64_be(buf, pos);
    assert(buf@.skip(pos as int).take(8) =~= buf@.subrange(pos as int, pos as int + 8));
    assert(buf@.skip(pos as int).skip(8) =~= buf@.skip(pos as int + 8));
    Option::Some((#[verifier::truncate] (x as i64), pos + 8))
}

/// Reads a counted return-code list at `pos` and advances.
fn read_codes(buf: &Vec<u8>, pos: usize) -> (r: Option<(Vec<i32>, usize)>)
    requires
        pos <= buf.len(),
    ensures
        match r {
            Option::Some((v, end)) => {
                &&& pos <= end <= buf.len()
                &&& spec_take_codes(buf@.skip(pos as int)) == Option::<(Seq<i32>, Seq<u8>)>::Some(
                    (v@, buf@.skip(end as int)),
                )
            },
            Option::None => spec_take_codes(buf@.skip(pos as int)) is None,
        },
{
    let (n, start) = match take_u32_exec(buf, pos) {
        Option::Some(v) => v,
        Option::None => {
            return Option::None;
        },
    };
    let mut v: Vec<i32> = Vec::new();
    let mut cur = start;
    let mut i: u32 = 0;
    proof {
        let items0 = spec_take_code_items(n as nat, buf@.skip(start as int));
        if items0 is Some {
            let (w, rest) = items0->0;
            assert(v@ + w =~= w);
        }
    }
    while i < n
        invariant
            i <= n,
            pos <= start <= cur <= buf.len(),
            v@.len() == i,
            spec_take_u32(buf@.skip(pos as int)) == Option::<(u32, Seq<u8>)>::Some(
                (n, buf@.skip(start as int)),
            ),
            spec_take_code_items(n as nat, buf@.skip(start as int)) == (match spec_take_code_items(
                (n - i) as nat,
                buf@.skip(cur as int),
            ) {
                Option::Some((w, rest)) => Option::<(Seq<i32>, Seq<u8>)>::Some((v@ + w, rest)),
                Option::None => Option::<(Seq<i32>, Seq<u8>)>::None,
            }),
        decreases n - i,
    {
        let ghost items_here = spec_take_code_items((n - i) as nat, buf@.skip(cur as int));
        match take_i32_exec(buf, cur) {
            Option::None => {
                assert(items_here is None);
                assert(spec_take_code_items(n as nat, buf@.skip(start as int)) is None);
                assert(spec_take_codes(buf@.skip(pos as int)) is None);
                return Option::None;
            },
            Option::Some((x, c2)) => {
                proof {
                    let items_next = spec_take_code_items(
                        (n - i - 1) as nat,
                        buf@.skip(c2 as int),
                    );
                    if items_next is Some {
                        let (w, rest) = items_next->0;
                        assert(v@ + (seq![x] + w) =~= v@.push(x) + w);
                    }
                }
                v.push(x);
                cur = c2;
                i = i + 1;
            },
        }
    }
    proof {
        assert(spec_take_code_items(0, buf@.skip(cur as int)) == Option::<(
            Seq<i32>,
            Seq<u8>,
        )>::Some((Seq::empty(), buf@.skip(cur as int))));
        assert(v@ + Seq::<i32>::empty() =~= v@);
    }
    Option::Some((v, cur))
}

/// Decodes the fields of a `RegisterAgent` frame body.
fn decode_register(buf: &Vec<u8>, pos: usize) -> (r: Result<Message, MessageError>)
    requires
        pos <= buf.len(),
    ensures
        match r {
            Result::Ok(msg) => spec_decode_register(buf@.skip(pos as int)) == Option::<
                MessageView,
            >::Some(msg@),
            Result::Err(e) => spec_decode_register(buf@.skip(pos as int)) is None
                && e == MessageError::SerializationError,
        },
{
    let (name, p1) = match read_string_field(buf, pos) {
        Option::Some(v) => v,
        Option::None => {
            return Result::Err(MessageError::SerializationError);
        },
    };
    let (hostname, p2) = match read_string_field(buf, p1) {
        Option::Some(v) => v,
        Option::None => {
            return Result::Err(MessageError::SerializationError);
        },
    };
    let (port, p3) = match take_u16_exec(buf, p2) {
        Option::Some(v) => v,
        Option::None => {
            return Result::Err(MessageError::SerializationError);
        },
    };
    if p3 != buf.len() {
        return Result::Err(MessageError::SerializationError);
    }
    assert(buf@.skip(p3 as int).len() == 0);
    Result::Ok(Message::RegisterAgent(RegisterAgent { name, hostname, port }))
}

/// Decodes the fields of a `DispatchJob` frame body.
fn decode_dispatch(buf: &Vec<u8>, pos: usize) -> (r: Result<Message, MessageError>)
    requires
        pos <= buf.len(),
    ensures
        match r {
            Result::Ok(msg) => spec_decode_dispatch(buf@.skip(pos as int)) == Option::<
                MessageView,
            >::Some(msg@),
            Result::Err(e) => spec_decode_dispatch(buf@.skip(pos as int)) is None
                && e == MessageError::SerializationError,
        },
{
    let (job_name, p1) = match read_string_field(buf, pos) {
        Option::Some(v) => v,
        Option::None => {
            return Result::Err(MessageError::SerializationError);
        },
    };
    let (command, p2) = match read_string_field(buf, p1) {
        Option::Some(v) => v,
        Option::None => {
            return Result::Err(MessageError::SerializationError);
        },
    };
    let (args, p3) = match read_string_field(buf, p2) {
        Option::Some(v) => v,
        Option::None => {
            return Result::Err(MessageError::SerializationError);
        },
    };
    let (agent_name, p4): (Option<String>, usize) = match take_u8_exec(buf, p3) {
        Option::None => {
            return Result::Err(MessageError::SerializationError);
        },
        Option::Some((t, q)) => if t == 0 {
            (Option::None, q)
        } else if t == 1 {
            match read_string_field(buf, q) {
                Option::Some((s, q2)) => (Option::Some(s), q2),
                Option::None => {
                    return Result::Err(MessageError::SerializationError);
                },
            }
        } else {
            return Result::Err(MessageError::SerializationError);
        },
    };
    assert(spec_take_opt_str(buf@.skip(p3 as int)) == Option::<(
        Option<Seq<char>>,
        Seq<u8>,
    )>::Some((spec_opt_str_view(&agent_name), buf@.skip(p4 as int))));
    let (valid_return_codes, p5): (Option<Vec<i32>>, usize) = match take_u8_exec(buf, p4) {
        Option::None => {
            return Result::Err(MessageError::SerializationError);
        },
        Option::Some((t, q)) => if t == 0 {
            (Option::None, q)
        } else if t == 1 {
            match read_codes(buf, q) {
                Option::Some((v, q2)) => (Option::Some(v), q2),
                Option::None => {
                    return Result::Err(MessageError::SerializationError);
                },
            }
        } else {
            return Result::Err(MessageError::SerializationError);
        },
    };
    assert(spec_take_opt_codes(buf@.skip(p4 as int)) == Option::<(
        Option<Seq<i32>>,
        Seq<u8>,
    )>::Some((spec_opt_codes_view(&valid_return_codes), buf@.skip(p5 as int))));
    if p5 != buf.len() {
        return Result::Err(MessageError::SerializationError);
    }
    assert(buf@.skip(p5 as int).len() == 0);
    Result::Ok(
        Message::DispatchJob(
            DispatchJob { job_name, command, args, agent_name, valid_return_codes },
        ),
    )
}

/// Decodes the fields of a `JobComplete` frame body.
#[verifier::rlimit(50)]
fn decode_complete(buf: &Vec<u8>, pos: usize) -> (r: Result<Message, MessageError>)
    requires
        pos <= buf.len(),
    ensures
        match r {
            Result::Ok(msg) => spec_decode_complete(buf@.skip(pos as int)) == Option::<
                MessageView,
            >::Some(msg@),
            Result::Err(e) => spec_decode_complete(buf@.skip(pos as int)) is None
                && e == MessageError::SerializationError,
        },
{
    let (started_at, p1) = match take_i64_exec(buf, pos) {
        Option::Some(v) => v,
        Option::None => {
            return Result::Err(MessageError::SerializationError);
        },
    };
    let (completed_at, p2) = match take_i64_exec(buf, p1) {
        Option::Some(v) => v,
        Option::None => {
            return Result::Err(MessageError::SerializationError);
        },
    };
    let (job_name, p3) = match read_string_field(buf, p2) {
        Option::Some(v) => v,
        Option::None => {
            return Result::Err(MessageError::SerializationError);
        },
    };
    let (command, p4) = match read_string_field(buf, p3) {
        Option::Some(v) => v,
        Option::None => {
            return Result::Err(MessageError::SerializationError);
        },
    };
    let (agent_name, p5) = match read_string_field(buf, p4) {
        Option::Some(v) => v,
        Option::None => {
            return Result::Err(MessageError::SerializationError);
        },
    };
    let (return_code, p6) = match take_i32_exec(buf, p5) {
        Option::Some(v) => v,
        Option::None => {
            return Result::Err(MessageError::SerializationError);
        },
    };
    let (outcome, p7): (JobOutCome, usize) = match take_u8_exec(buf, p6) {
        Option::None => {
            return Result::Err(MessageError::SerializationError);
        },
        Option::Some((t, q)) => if t == 0 {
            (JobOutCome::Failure, q)
        } else if t == 1 {
            (JobOutCome::Success, q)
        } else if t == 2 {
            (JobOutCome::Unknown, q)
        } else {
            return Result::Err(MessageError::SerializationError);
        },
    };
    assert(spec_take_outcome(buf@.skip(p6 as int)) == Option::<(JobOutCome, Seq<u8>)>::Some(
        (outcome, buf@.skip(p7 as int)),
    ));
    let (output, p8) = match read_string_field(buf, p7) {
        Option::Some(v) => v,
        Option::None => {
            return Result::Err(MessageError::SerializationError);
        },
    };
    if p8 != buf.len() {
        return Result::Err(MessageError::SerializationError);
    }
    assert(buf@.skip(p8 as int).len() == 0);
    Result::Ok(
        Message::JobComplete(
            JobComplete {
                started_at,
                completed_at,
                job_name,
                command,
                agent_name,
                return_code,
                outcome,
                output,
            },
        ),
    )
}

/// Decodes one frame payload into a message. Fails exactly on the byte
/// strings that no encoder run can have produced.
pub fn decode_message(buf: &Vec<u8>) -> (r: Result<Message, MessageError>)
    ensures
        match r {
            Result::Ok(msg) => spec_decode(buf@) == Option::<MessageView>::Some(msg@),
            Result::Err(e) => spec_decode(buf@) is None && e == MessageError::SerializationError,
        },
{
    assert(buf@.skip(0) =~= buf@);
    let (tag, pos) = match take_u8_exec(buf, 0) {
        Option::Some(v) => v,
        Option::None => {
            return Result::Err(MessageError::SerializationError);
        },
    };
    assert(spec_take_u8(buf@) == Option::<(u8, Seq<u8>)>::Some((tag, buf@.skip(pos as int))));
    if tag == TAG_PING {
        if pos == buf.len() {
            assert(buf@.skip(pos as int).len() == 0);
            assert(spec_decode(buf@) == Option::<MessageView>::Some(MessageView::Ping));
            Result::Ok(Message::Ping)
        } else {
            Result::Err(MessageError::SerializationError)
        }
    } else if tag == TAG_REGISTER_AGENT {
        assert(spec_decode(buf@) == spec_decode_register(buf@.skip(pos as int)));
        decode_register(buf, pos)
    } else if tag == TAG_DISPATCH_JOB {
        assert(spec_decode(buf@) == spec_decode_dispatch(buf@.skip(pos as int)));
        decode_dispatch(buf, pos)
    } else if tag == TAG_JOB_COMPLETE {
        assert(spec_decode(buf@) == spec_decode_complete(buf@.skip(pos as int)));
        decode_complete(buf, pos)
    } else {
        Result::Err(MessageError::SerializationError)
    }
}

} // verus!
