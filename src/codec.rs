//! Positional encoding of call arguments and return values.
//!
//! Every value is written at the end of a byte buffer and read back from a
//! position in one. Integers take a fixed number of big-endian bytes; byte
//! strings and text carry a four-byte length, optional values a one-byte
//! presence flag and sequences a four-byte element count.
use vstd::prelude::*;
use vstd::string::StringSliceAdditionalSpecFns;
use vstd::utf8::{decode_utf8, encode_utf8, valid_utf8};

verus! {

/// Errors raised while reading a call buffer.
#[derive(Debug, Clone, Copy, PartialEq, Eq, Structural)]
pub enum EncodingError {
    /// Fewer bytes remain than the value needs.
    UnexpectedEnd,
    /// A presence flag that is neither 0 nor 1.
    InvalidFlag,
    /// Text whose bytes are not valid UTF-8.
    InvalidUtf8,
}

/// Big-endian encoding of a `u32`.
pub open spec fn enc_u32(v: u32) -> Seq<u8> {
    seq![(v >> 24u32) as u8, (v >> 16u32) as u8, (v >> 8u32) as u8, v as u8]
}

/// Big-endian encoding of a `u64`.
pub open spec fn enc_u64(v: u64) -> Seq<u8> {
    seq![
        (v >> 56u64) as u8, (v >> 48u64) as u8, (v >> 40u64) as u8, (v >> 32u64) as u8,
        (v >> 24u64) as u8, (v >> 16u64) as u8, (v >> 8u64) as u8, v as u8,
    ]
}

/// Encoding of an `i32`: the four bytes of its two's complement bit pattern.
pub open spec fn enc_i32(v: i32) -> Seq<u8> {
    enc_u32(v as u32)
}

/// The `u32` held big-endian in the four bytes of `s` from `pos` on.
pub open spec fn u32_at(s: Seq<u8>, pos: int) -> u32 {
    ((s[pos] as u32) << 24u32) | ((s[pos + 1] as u32) << 16u32) | ((s[pos + 2] as u32) << 8u32)
        | (s[pos + 3] as u32)
}

/// The `u64` held big-endian in the eight bytes of `s` from `pos` on.
pub open spec fn u64_at(s: Seq<u8>, pos: int) -> u64 {
    ((s[pos] as u64) << 56u64) | ((s[pos + 1] as u64) << 48u64) | ((s[pos + 2] as u64) << 40u64)
        | ((s[pos + 3] as u64) << 32u64) | ((s[pos + 4] as u64) << 24u64) | ((s[pos + 5] as u64)
        << 16u64) | ((s[pos + 6] as u64) << 8u64) | (s[pos + 7] as u64)
}

/// Whether `n` bytes of `s` remain from `pos` on.
pub open spec fn fits(s: Seq<u8>, pos: int, n: int) -> bool {
    0 <= pos && pos + n <= s.len()
}

/// Reading a `u8` at `pos`: the value and the position after it.
pub open spec fn dec_u8(s: Seq<u8>, pos: usize) -> Result<(u8, usize), EncodingError> {
    if fits(s, pos as int, 1) {
        Ok((s[pos as int], (pos + 1) as usize))
    } else {
        Err(EncodingError::UnexpectedEnd)
    }
}

/// Reading a `u32` at `pos`.
pub open spec fn dec_u32(s: Seq<u8>, pos: usize) -> Result<(u32, usize), EncodingError> {
    if fits(s, pos as int, 4) {
        Ok((u32_at(s, pos as int), (pos + 4) as usize))
    } else {
        Err(EncodingError::UnexpectedEnd)
    }
}

/// Reading an `i32` at `pos`.
pub open spec fn dec_i32(s: Seq<u8>, pos: usize) -> Result<(i32, usize), EncodingError> {
    if fits(s, pos as int, 4) {
        Ok((u32_at(s, pos as int) as i32, (pos + 4) as usize))
    } else {
        Err(EncodingError::UnexpectedEnd)
    }
}

/// Reading a `u64` at `pos`.
pub open spec fn dec_u64(s: Seq<u8>, pos: usize) -> Result<(u64, usize), EncodingError> {
    if fits(s, pos as int, 8) {
        Ok((u64_at(s, pos as int), (pos + 8) as usize))
    } else {
        Err(EncodingError::UnexpectedEnd)
    }
}

/// Relies on uniffi::check_remaining: it fails exactly when fewer than `n`
/// bytes remain in `buf`.
#[verifier::external_body]
fn has_remaining(buf: &[u8], n: usize) -> (r: bool)
    ensures
        r == (buf@.len() >= n),
{
    uniffi::check_remaining(buf, n).is_ok()
}

/// Whether `n` bytes of `buf` remain from `pos` on.
fn remaining_at(buf: &[u8], pos: usize, n: usize) -> (r: bool)
    ensures
        r == fits(buf@, pos as int, n as int),
{
    if pos > buf.len() {
        return false;
    }
    let rest = &buf[pos..buf.len()];
    has_remaining(rest, n)
}

/// Appends `v` as one byte.
pub fn write_u8(buf: &mut Vec<u8>, v: u8)
    ensures
        final(buf)@ == old(buf)@ + seq![v],
{
    buf.push(v);
}

/// Appends `v` in four big-endian bytes.
pub fn write_u32(buf: &mut Vec<u8>, v: u32)
    ensures
        final(buf)@ == old(buf)@ + enc_u32(v),
{
    buf.push((v >> 24u32) as u8);
    buf.push((v >> 16u32) as u8);
    buf.push((v >> 8u32) as u8);
    buf.push(v as u8);
    assert(buf@ =~= old(buf)@ + enc_u32(v));
}

/// Appends `v` in four big-endian bytes of its two's complement form.
pub fn write_i32(buf: &mut Vec<u8>, v: i32)
    ensures
        final(buf)@ == old(buf)@ + enc_i32(v),
{
    write_u32(buf, v as u32);
}

/// Appends `v` in eight big-endian bytes.
pub fn write_u64(buf: &mut Vec<u8>, v: u64)
    ensures
        final(buf)@ == old(buf)@ + enc_u64(v),
{
    buf.push((v >> 56u64) as u8);
    buf.push((v >> 48u64) as u8);
    buf.push((v >> 40u64) as u8);
    buf.push((v >> 32u64) as u8);
    buf.push((v >> 24u64) as u8);
    buf.push((v >> 16u64) as u8);
    buf.push((v >> 8u64) as u8);
    buf.push(v as u8);
    assert(buf@ =~= old(buf)@ + enc_u64(v));
}

/// Reads one byte at `pos`.
pub fn read_u8(buf: &[u8], pos: usize) -> (r: Result<(u8, usize), EncodingError>)
    ensures
        r == dec_u8(buf@, pos),
{
    if !remaining_at(buf, pos, 1) {
        return Err(EncodingError::UnexpectedEnd);
    }
    Ok((buf[pos], pos + 1))
}

/// Reads a big-endian `u32` at `pos`.
pub fn read_u32(buf: &[u8], pos: usize) -> (r: Result<(u32, usize), EncodingError>)
    ensures
        r == dec_u32(buf@, pos),
{
    if !remaining_at(buf, pos, 4) {
        return Err(EncodingError::UnexpectedEnd);
    }
    let v = ((buf[pos] as u32) << 24u32) | ((buf[pos + 1] as u32) << 16u32) | ((buf[pos + 2] as u32)
        << 8u32) | (buf[pos + 3] as u32);
    Ok((v, pos + 4))
}

/// Reads a big-endian two's complement `i32` at `pos`.
pub fn read_i32(buf: &[u8], pos: usize) -> (r: Result<(i32, usize), EncodingError>)
    ensures
        r == dec_i32(buf@, pos),
{
    match read_u32(buf, pos) {
        Ok((v, next)) => Ok((v as i32, next)),
        Err(e) => Err(e),
    }
}

/// Reads a big-endian `u64` at `pos`.
pub fn read_u64(buf: &[u8], pos: usize) -> (r: Result<(u64, usize), EncodingError>)
    ensures
        r == dec_u64(buf@, pos),
{
    if !remaining_at(buf, pos, 8) {
        return Err(EncodingError::UnexpectedEnd);
    }
    let v = ((buf[pos] as u64) << 56u64) | ((buf[pos + 1] as u64) << 48u64) | ((buf[pos + 2] as u64)
        << 40u64) | ((buf[pos + 3] as u64) << 32u64) | ((buf[pos + 4] as u64) << 24u64) | ((buf[pos
        + 5] as u64) << 16u64) | ((buf[pos + 6] as u64) << 8u64) | (buf[pos + 7] as u64);
    Ok((v, pos + 8))
}

/// The four bytes of a `u32` give the value back.
pub proof fn lemma_u32_bytes(v: u32)
    ensures
        u32_at(enc_u32(v), 0) == v,
{
    let b0 = (v >> 24u32) as u8;
    let b1 = (v >> 16u32) as u8;
    let b2 = (v >> 8u32) as u8;
    let b3 = v as u8;
    assert((((b0 as u32) << 24u32) | ((b1 as u32) << 16u32) | ((b2 as u32) << 8u32) | (b3 as u32))
        == v) by (bit_vector)
        requires
            b0 == (v >> 24u32) as u8,
            b1 == (v >> 16u32) as u8,
            b2 == (v >> 8u32) as u8,
            b3 == v as u8,
    ;
}

/// The eight bytes of a `u64` give the value back.
pub proof fn lemma_u64_bytes(v: u64)
    ensures
        u64_at(enc_u64(v), 0) == v,
{
    let b0 = (v >> 56u64) as u8;
    let b1 = (v >> 48u64) as u8;
    let b2 = (v >> 40u64) as u8;
    let b3 = (v >> 32u64) as u8;
    let b4 = (v >> 24u64) as u8;
    let b5 = (v >> 16u64) as u8;
    let b6 = (v >> 8u64) as u8;
    let b7 = v as u8;
    assert((((b0 as u64) << 56u64) | ((b1 as u64) << 48u64) | ((b2 as u64) << 40u64) | ((b3 as u64)
        << 32u64) | ((b4 as u64) << 24u64) | ((b5 as u64) << 16u64) | ((b6 as u64) << 8u64) | (b7 as u64))
        == v) by (bit_vector)
        requires
            b0 == (v >> 56u64) as u8,
            b1 == (v >> 48u64) as u8,
            b2 == (v >> 40u64) as u8,
            b3 == (v >> 32u64) as u8,
            b4 == (v >> 24u64) as u8,
            b5 == (v >> 16u64) as u8,
            b6 == (v >> 8u64) as u8,
            b7 == v as u8,
    ;
}

/// Reading back a `u8` written between any other bytes gives the value.
pub proof fn lemma_round_trip_u8(v: u8, before: Seq<u8>, after: Seq<u8>)
    requires
        before.len() + 1 + after.len() <= usize::MAX,
    ensures
        dec_u8(before + seq![v] + after, before.len() as usize) == Ok::<(u8, usize), EncodingError>(
            (v, (before.len() + 1) as usize),
        ),
{
    let s = before + seq![v] + after;
    assert(s[before.len() as int] == v);
}

/// Reading back a `u32` written between any other bytes gives the value.
pub proof fn lemma_round_trip_u32(v: u32, before: Seq<u8>, after: Seq<u8>)
    requires
        before.len() + 4 + after.len() <= usize::MAX,
    ensures
        dec_u32(before + enc_u32(v) + after, before.len() as usize) == Ok::<(u32, usize), EncodingError>(
            (v, (before.len() + 4) as usize),
        ),
{
    let s = before + enc_u32(v) + after;
    let e = enc_u32(v);
    let p = before.len() as int;
    assert(s[p] == e[0] && s[p + 1] == e[1] && s[p + 2] == e[2] && s[p + 3] == e[3]);
    lemma_u32_bytes(v);
}

/// Reading back an `i32` written between any other bytes gives the value.
pub proof fn lemma_round_trip_i32(v: i32, before: Seq<u8>, after: Seq<u8>)
    requires
        before.len() + 4 + after.len() <= usize::MAX,
    ensures
        dec_i32(before + enc_i32(v) + after, before.len() as usize) == Ok::<(i32, usize), EncodingError>(
            (v, (before.len() + 4) as usize),
        ),
{
    lemma_round_trip_u32(v as u32, before, after);
    assert(((v as u32) as i32) == v) by (bit_vector);
}

/// Reading back a `u64` written between any other bytes gives the value.
pub proof fn lemma_round_trip_u64(v: u64, before: Seq<u8>, after: Seq<u8>)
    requires
        before.len() + 8 + after.len() <= usize::MAX,
    ensures
        dec_u64(before + enc_u64(v) + after, before.len() as usize) == Ok::<(u64, usize), EncodingError>(
            (v, (before.len() + 8) as usize),
        ),
{
    let s = before + enc_u64(v) + after;
    let e = enc_u64(v);
    let p = before.len() as int;
    assert(s[p] == e[0] && s[p + 1] == e[1] && s[p + 2] == e[2] && s[p + 3] == e[3]);
    assert(s[p + 4] == e[4] && s[p + 5] == e[5] && s[p + 6] == e[6] && s[p + 7] == e[7]);
    lemma_u64_bytes(v);
}

/// Encoding of a byte string: its length as a `u32`, then the bytes.
pub open spec fn enc_bytes(b: Seq<u8>) -> Seq<u8> {
    enc_u32(b.len() as u32) + b
}

/// Encoding of text: its UTF-8 bytes as a byte string.
pub open spec fn enc_string(c: Seq<char>) -> Seq<u8> {
    enc_bytes(encode_utf8(c))
}

/// Encoding of an optional `u64`: a presence flag, then the value if there is one.
pub open spec fn enc_option_u64(o: Option<u64>) -> Seq<u8> {
    match o {
        None => seq![0u8],
        Some(v) => seq![1u8] + enc_u64(v),
    }
}

/// The encodings of the elements of `items`, one after another.
pub open spec fn enc_u64_items(items: Seq<u64>) -> Seq<u8>
    decreases items.len(),
{
    if items.len() == 0 {
        seq![]
    } else {
        enc_u64_items(items.drop_last()) + enc_u64(items.last())
    }
}

/// Encoding of a sequence of `u64`: the element count as a `u32`, then the elements.
pub open spec fn enc_seq_u64(items: Seq<u64>) -> Seq<u8> {
    enc_u32(items.len() as u32) + enc_u64_items(items)
}

/// Reading a byte string at `pos`.
pub open spec fn dec_bytes(s: Seq<u8>, pos: usize) -> Result<(Seq<u8>, usize), EncodingError> {
    match dec_u32(s, pos) {
        Ok((n, start)) => if fits(s, start as int, n as int) {
            Ok((s.subrange(start as int, start + n), (start + n) as usize))
        } else {
            Err(EncodingError::UnexpectedEnd)
        },
        Err(e) => Err(e),
    }
}

/// Reading text at `pos`.
pub open spec fn dec_string(s: Seq<u8>, pos: usize) -> Result<(Seq<char>, usize), EncodingError> {
    match dec_bytes(s, pos) {
        Ok((b, next)) => if valid_utf8(b) {
            Ok((decode_utf8(b), next))
        } else {
            Err(EncodingError::InvalidUtf8)
        },
        Err(e) => Err(e),
    }
}

/// Reading an optional `u64` at `pos`.
pub open spec fn dec_option_u64(s: Seq<u8>, pos: usize) -> Result<
    (Option<u64>, usize),
    EncodingError,
> {
    match dec_u8(s, pos) {
        Ok((flag, next)) => if flag == 0 {
            Ok((None, next))
        } else if flag == 1 {
            match dec_u64(s, next) {
                Ok((v, end)) => Ok((Some(v), end)),
                Err(e) => Err(e),
            }
        } else {
            Err(EncodingError::InvalidFlag)
        },
        Err(e) => Err(e),
    }
}

/// Reading `count` consecutive `u64` values at `pos`.
pub open spec fn dec_u64_items(s: Seq<u8>, pos: usize, count: nat) -> Result<
    (Seq<u64>, usize),
    EncodingError,
>
    decreases count,
{
    if count == 0 {
        Ok((seq![], pos))
    } else {
        match dec_u64_items(s, pos, (count - 1) as nat) {
            Ok((items, next)) => match dec_u64(s, next) {
                Ok((v, end)) => Ok((items.push(v), end)),
                Err(e) => Err(e),
            },
            Err(e) => Err(e),
        }
    }
}

/// Reading a sequence of `u64` at `pos`.
pub open spec fn dec_seq_u64(s: Seq<u8>, pos: usize) -> Result<(Seq<u64>, usize), EncodingError> {
    match dec_u32(s, pos) {
        Ok((n, start)) => dec_u64_items(s, start, n as nat),
        Err(e) => Err(e),
    }
}

/// Relies on std's String::from_utf8: it succeeds exactly on valid UTF-8 and
/// then holds the characters that the bytes encode.
#[verifier::external_body]
pub(crate) fn utf8_to_string(b: Vec<u8>) -> (r: Option<String>)
    ensures
        r.is_some() == valid_utf8(b@),
        r matches Some(t) ==> t@ == decode_utf8(b@),
{
    String::from_utf8(b).ok()
}

/// Appends the bytes of `b` one by one.
fn push_all(buf: &mut Vec<u8>, b: &[u8])
    ensures
        final(buf)@ == old(buf)@ + b@,
{
    let mut i: usize = 0;
    while i < b.len()
        invariant
            i <= b@.len(),
            buf@ == old(buf)@ + b@.subrange(0, i as int),
        decreases b@.len() - i,
    {
        buf.push(b[i]);
        i = i + 1;
        assert(b@.subrange(0, i as int) =~= b@.subrange(0, i - 1) + seq![b@[i - 1]]);
    }
    assert(b@.subrange(0, b@.len() as int) =~= b@);
}

/// Appends `b` as a byte string.
pub fn write_bytes(buf: &mut Vec<u8>, b: &[u8])
    requires
        b@.len() <= u32::MAX,
    ensures
        final(buf)@ == old(buf)@ + enc_bytes(b@),
{
    write_u32(buf, b.len() as u32);
    push_all(buf, b);
    assert(buf@ =~= old(buf)@ + enc_bytes(b@));
}

/// Appends `t` as text.
pub fn write_string(buf: &mut Vec<u8>, t: &str)
    requires
        t.spec_bytes().len() <= u32::MAX,
    ensures
        final(buf)@ == old(buf)@ + enc_string(t@),
{
    write_bytes(buf, t.as_bytes());
}

/// Appends an optional `u64`.
pub fn write_option_u64(buf: &mut Vec<u8>, o: Option<u64>)
    ensures
        final(buf)@ == old(buf)@ + enc_option_u64(o),
{
    match o {
        None => {
            buf.push(0u8);
        },
        Some(v) => {
            buf.push(1u8);
            write_u64(buf, v);
        },
    }
    assert(buf@ =~= old(buf)@ + enc_option_u64(o));
}

/// Appends a sequence of `u64`.
pub fn write_seq_u64(buf: &mut Vec<u8>, items: &[u64])
    requires
        items@.len() <= u32::MAX,
    ensures
        final(buf)@ == old(buf)@ + enc_seq_u64(items@),
{
    write_u32(buf, items.len() as u32);
    let ghost head = buf@;
    let mut i: usize = 0;
    while i < items.len()
        invariant
            i <= items@.len(),
            buf@ == head + enc_u64_items(items@.subrange(0, i as int)),
        decreases items@.len() - i,
    {
        let ghost done = items@.subrange(0, i as int);
        write_u64(buf, items[i]);
        i = i + 1;
        assert(items@.subrange(0, i as int).drop_last() =~= done);
    }
    assert(items@.subrange(0, items@.len() as int) =~= items@);
}

/// Reads a byte string at `pos`.
pub fn read_bytes(buf: &[u8], pos: usize) -> (r: Result<(Vec<u8>, usize), EncodingError>)
    ensures
        match r {
            Ok((b, next)) => dec_bytes(buf@, pos) == Ok::<(Seq<u8>, usize), EncodingError>((b@, next)),
            Err(e) => dec_bytes(buf@, pos) == Err::<(Seq<u8>, usize), EncodingError>(e),
        },
{
    let (n, start) = match read_u32(buf, pos) {
        Ok(x) => x,
        Err(e) => return Err(e),
    };
    if !remaining_at(buf, start, n as usize) {
        return Err(EncodingError::UnexpectedEnd);
    }
    let len = buf.len();
    assert(start + n <= len);
    let end = start + n as usize;
    let b = vstd::slice::slice_to_vec(&buf[start..end]);
    Ok((b, end))
}

/// Reads text at `pos`.
pub fn read_string(buf: &[u8], pos: usize) -> (r: Result<(String, usize), EncodingError>)
    ensures
        match r {
            Ok((t, next)) => dec_string(buf@, pos) == Ok::<(Seq<char>, usize), EncodingError>((t@, next)),
            Err(e) => dec_string(buf@, pos) == Err::<(Seq<char>, usize), EncodingError>(e),
        },
{
    let (b, next) = match read_bytes(buf, pos) {
        Ok(x) => x,
        Err(e) => return Err(e),
    };
    match utf8_to_string(b) {
        Some(t) => Ok((t, next)),
        None => Err(EncodingError::InvalidUtf8),
    }
}

/// Reads an optional `u64` at `pos`.
pub fn read_option_u64(buf: &[u8], pos: usize) -> (r: Result<(Option<u64>, usize), EncodingError>)
    ensures
        r == dec_option_u64(buf@, pos),
{
    let (flag, next) = match read_u8(buf, pos) {
        Ok(x) => x,
        Err(e) => return Err(e),
    };
    if flag == 0 {
        Ok((None, next))
    } else if flag == 1 {
        match read_u64(buf, next) {
            Ok((v, end)) => Ok((Some(v), end)),
            Err(e) => Err(e),
        }
    } else {
        Err(EncodingError::InvalidFlag)
    }
}

/// Reads a sequence of `u64` at `pos`.
pub fn read_seq_u64(buf: &[u8], pos: usize) -> (r: Result<(Vec<u64>, usize), EncodingError>)
    ensures
        match r {
            Ok((items, next)) => dec_seq_u64(buf@, pos) == Ok::<(Seq<u64>, usize), EncodingError>(
                (items@, next),
            ),
            Err(e) => dec_seq_u64(buf@, pos) == Err::<(Seq<u64>, usize), EncodingError>(e),
        },
{
    let (n, start) = match read_u32(buf, pos) {
        Ok(x) => x,
        Err(e) => return Err(e),
    };
    let mut items: Vec<u64> = Vec::new();
    let mut at: usize = start;
    let mut i: u32 = 0;
    while i < n
        invariant
            i <= n,
            dec_seq_u64(buf@, pos) == dec_u64_items(buf@, start, n as nat),
            dec_u64_items(buf@, start, i as nat) == Ok::<(Seq<u64>, usize), EncodingError>((items@, at)),
        decreases n - i,
    {
        match read_u64(buf, at) {
            Ok((v, end)) => {
                items.push(v);
                at = end;
            },
            Err(e) => {
                proof {
                    lemma_items_fail_later(buf@, start, (i + 1) as nat, n as nat);
                }
                return Err(e);
            },
        }
        i = i + 1;
    }
    Ok((items, at))
}

/// Once reading the first `k` items fails, reading more of them fails the same way.
proof fn lemma_items_fail_later(s: Seq<u8>, pos: usize, k: nat, m: nat)
    requires
        k <= m,
        dec_u64_items(s, pos, k) is Err,
    ensures
        dec_u64_items(s, pos, m) == dec_u64_items(s, pos, k),
    decreases m - k,
{
    if k < m {
        lemma_items_fail_later(s, pos, k, (m - 1) as nat);
    }
}

/// Reading back a byte string written between any other bytes gives it.
pub proof fn lemma_round_trip_bytes(b: Seq<u8>, before: Seq<u8>, after: Seq<u8>)
    requires
        b.len() <= u32::MAX,
        before.len() + 4 + b.len() + after.len() <= usize::MAX,
    ensures
        dec_bytes(before + enc_bytes(b) + after, before.len() as usize) == Ok::<
            (Seq<u8>, usize),
            EncodingError,
        >((b, (before.len() + 4 + b.len()) as usize)),
{
    let n = b.len() as u32;
    let s = before + enc_bytes(b) + after;
    assert(s =~= before + enc_u32(n) + (b + after));
    lemma_round_trip_u32(n, before, b + after);
    let start = before.len() + 4int;
    assert(s.subrange(start, start + n) =~= b);
}

/// Reading back text written between any other bytes gives it.
pub proof fn lemma_round_trip_string(c: Seq<char>, before: Seq<u8>, after: Seq<u8>)
    requires
        encode_utf8(c).len() <= u32::MAX,
        before.len() + 4 + encode_utf8(c).len() + after.len() <= usize::MAX,
    ensures
        dec_string(before + enc_string(c) + after, before.len() as usize) == Ok::<
            (Seq<char>, usize),
            EncodingError,
        >((c, (before.len() + 4 + encode_utf8(c).len()) as usize)),
{
    lemma_round_trip_bytes(encode_utf8(c), before, after);
    vstd::utf8::encode_utf8_valid_utf8(c);
    vstd::utf8::encode_utf8_decode_utf8(c);
}

/// Reading back an optional `u64` written between any other bytes gives it.
pub proof fn lemma_round_trip_option_u64(o: Option<u64>, before: Seq<u8>, after: Seq<u8>)
    requires
        before.len() + enc_option_u64(o).len() + after.len() <= usize::MAX,
    ensures
        dec_option_u64(before + enc_option_u64(o) + after, before.len() as usize) == Ok::<
            (Option<u64>, usize),
            EncodingError,
        >((o, (before.len() + enc_option_u64(o).len()) as usize)),
{
    let s = before + enc_option_u64(o) + after;
    match o {
        None => {
            assert(s =~= before + seq![0u8] + after);
            lemma_round_trip_u8(0u8, before, after);
        },
        Some(v) => {
            assert(s =~= before + seq![1u8] + (enc_u64(v) + after));
            lemma_round_trip_u8(1u8, before, enc_u64(v) + after);
            assert(s =~= (before + seq![1u8]) + enc_u64(v) + after);
            lemma_round_trip_u64(v, before + seq![1u8], after);
        },
    }
}

/// Each element takes eight bytes.
pub proof fn lemma_u64_items_len(items: Seq<u64>)
    ensures
        enc_u64_items(items).len() == 8 * items.len(),
    decreases items.len(),
{
    if items.len() > 0 {
        lemma_u64_items_len(items.drop_last());
    }
}

/// Reading back `items.len()` elements written between any other bytes gives them.
pub proof fn lemma_round_trip_u64_items(items: Seq<u64>, before: Seq<u8>, after: Seq<u8>)
    requires
        before.len() + 8 * items.len() + after.len() <= usize::MAX,
    ensures
        dec_u64_items(before + enc_u64_items(items) + after, before.len() as usize, items.len())
            == Ok::<(Seq<u64>, usize), EncodingError>(
            (items, (before.len() + 8 * items.len()) as usize),
        ),
    decreases items.len(),
{
    let s = before + enc_u64_items(items) + after;
    if items.len() > 0 {
        let init = items.drop_last();
        let last = items.last();
        lemma_u64_items_len(init);
        assert(s =~= before + enc_u64_items(init) + (enc_u64(last) + after));
        lemma_round_trip_u64_items(init, before, enc_u64(last) + after);
        assert(s =~= (before + enc_u64_items(init)) + enc_u64(last) + after);
        lemma_round_trip_u64(last, before + enc_u64_items(init), after);
        assert(init.push(last) =~= items);
        assert(before.len() + 8 * init.len() + 8 == before.len() + 8 * items.len());
    } else {
        assert(items =~= seq![]);
    }
}

/// Reading back a sequence of `u64` written between any other bytes gives it.
pub proof fn lemma_round_trip_seq_u64(items: Seq<u64>, before: Seq<u8>, after: Seq<u8>)
    requires
        items.len() <= u32::MAX,
        before.len() + 4 + 8 * items.len() + after.len() <= usize::MAX,
    ensures
        dec_seq_u64(before + enc_seq_u64(items) + after, before.len() as usize) == Ok::<
            (Seq<u64>, usize),
            EncodingError,
        >((items, (before.len() + 4 + 8 * items.len()) as usize)),
{
    let n = items.len() as u32;
    let s = before + enc_seq_u64(items) + after;
    lemma_u64_items_len(items);
    assert(s =~= before + enc_u32(n) + (enc_u64_items(items) + after));
    lemma_round_trip_u32(n, before, enc_u64_items(items) + after);
    assert(s =~= (before + enc_u32(n)) + enc_u64_items(items) + after);
    lemma_round_trip_u64_items(items, before + enc_u32(n), after);
}

} // verus!
