//! Little-endian fixed-width integers and length-prefixed byte strings: the
//! building blocks of the wire format, with their encoders, decoders and the
//! facts that tie the two together.

use vstd::prelude::*;
use vstd::utf8::{decode_utf8, encode_utf8, valid_utf8};

verus! {

broadcast use {vstd::utf8::encode_utf8_valid_utf8, vstd::utf8::encode_utf8_decode_utf8};

/// `256` to the power `n`.
pub open spec fn pow256(n: nat) -> nat
    decreases n,
{
    if n == 0 {
        1
    } else {
        256 * pow256((n - 1) as nat)
    }
}

/// The `n` low-order bytes of `v`, least significant first.
pub open spec fn le_bytes(v: nat, n: nat) -> Seq<u8>
    decreases n,
{
    if n == 0 {
        Seq::empty()
    } else {
        seq![(v % 256) as u8] + le_bytes(v / 256, (n - 1) as nat)
    }
}

/// The number whose little-endian bytes are `b`.
pub open spec fn le_value(b: Seq<u8>) -> nat
    decreases b.len(),
{
    if b.len() == 0 {
        0
    } else {
        b[0] as nat + 256 * le_value(b.drop_first())
    }
}

/// Encoding of a `u32`: four bytes, little-endian.
pub open spec fn u32_field(v: u32) -> Seq<u8> {
    le_bytes(v as nat, 4)
}

/// Encoding of a `u64` (and of a `usize`): eight bytes, little-endian.
pub open spec fn u64_field(v: u64) -> Seq<u8> {
    le_bytes(v as nat, 8)
}

/// Encoding of a byte string: its length as a `u64`, then the bytes.
pub open spec fn bytes_field(b: Seq<u8>) -> Seq<u8> {
    le_bytes(b.len(), 8) + b
}

/// Encoding of a text: the byte string of its UTF-8 encoding.
pub open spec fn string_field(s: Seq<char>) -> Seq<u8> {
    bytes_field(encode_utf8(s))
}

/// Why a byte string is not the encoding of a message.
#[derive(Debug, Clone, Copy, PartialEq, Eq, Structural)]
pub enum DecodeError {
    /// The input ends before the value does.
    UnexpectedEnd,
    /// The variant tag names no variant.
    InvalidVariant,
    /// A text field is not valid UTF-8.
    InvalidUtf8,
    /// An integer does not fit the field's type on this machine.
    ValueTooLarge,
}

/// Reads an `n`-byte little-endian integer from the front of `b`; gives it and
/// the bytes after it.
pub closed spec fn take_fixed(b: Seq<u8>, n: nat) -> Result<(nat, Seq<u8>), DecodeError> {
    if b.len() >= n {
        Ok((le_value(b.take(n as int)), b.skip(n as int)))
    } else {
        Err(DecodeError::UnexpectedEnd)
    }
}

/// Reading a fixed-width integer succeeds exactly on enough bytes, and gives
/// the little-endian value of the first `n` bytes and the bytes after them.
pub proof fn lemma_take_fixed_reads(b: Seq<u8>, n: nat)
    ensures
        take_fixed(b, n) is Ok <==> b.len() >= n,
        take_fixed(b, n) matches Ok((v, rest)) ==> v == le_value(b.take(n as int)) && rest == b.skip(
            n as int,
        ),
{
}

/// A four-byte little-endian value below 256 is its first byte, the other
/// three being zero.
pub proof fn lemma_le_value_small(b: Seq<u8>, t: nat)
    requires
        b.len() == 4,
        t < 256,
    ensures
        le_value(b) == t <==> b == seq![t as u8, 0u8, 0u8, 0u8],
{
    reveal_with_fuel(le_value, 5);
    assert(b.drop_first().drop_first().drop_first().drop_first().len() == 0);
    if b == seq![t as u8, 0u8, 0u8, 0u8] {
        assert(b[0] == t as u8 && b[1] == 0 && b[2] == 0 && b[3] == 0);
    }
    if le_value(b) == t {
        assert(b =~= seq![t as u8, 0u8, 0u8, 0u8]);
    }
}

/// Reads a length-prefixed byte string from the front of `b`.
pub closed spec fn take_bytes(b: Seq<u8>) -> Result<(Seq<u8>, Seq<u8>), DecodeError> {
    match take_fixed(b, 8) {
        Err(e) => Err(e),
        Ok((len, rest)) => if rest.len() >= len {
            Ok((rest.take(len as int), rest.skip(len as int)))
        } else {
            Err(DecodeError::UnexpectedEnd)
        },
    }
}

/// Reads a length-prefixed UTF-8 text from the front of `b`.
pub closed spec fn take_string(b: Seq<u8>) -> Result<(Seq<char>, Seq<u8>), DecodeError> {
    match take_bytes(b) {
        Err(e) => Err(e),
        Ok((bytes, rest)) => if valid_utf8(bytes) {
            Ok((decode_utf8(bytes), rest))
        } else {
            Err(DecodeError::InvalidUtf8)
        },
    }
}

/// Reads a `usize` (eight bytes) from the front of `b`.
pub closed spec fn take_usize(b: Seq<u8>) -> Result<(usize, Seq<u8>), DecodeError> {
    match take_fixed(b, 8) {
        Err(e) => Err(e),
        Ok((v, rest)) => if v <= usize::MAX {
            Ok((v as usize, rest))
        } else {
            Err(DecodeError::ValueTooLarge)
        },
    }
}

/// Writing `n` little-endian bytes gives `n` bytes.
pub proof fn lemma_le_bytes_len(v: nat, n: nat)
    ensures
        le_bytes(v, n).len() == n,
    decreases n,
{
    if n > 0 {
        lemma_le_bytes_len(v / 256, (n - 1) as nat);
    }
}

/// Powers of 256 are positive.
pub proof fn lemma_pow256_positive(n: nat)
    ensures
        pow256(n) >= 1,
    decreases n,
{
    if n > 0 {
        lemma_pow256_positive((n - 1) as nat);
    }
}

/// A little-endian byte string is smaller than `256` to the power of its length.
pub proof fn lemma_le_value_bound(b: Seq<u8>)
    ensures
        le_value(b) < pow256(b.len()),
    decreases b.len(),
{
    if b.len() > 0 {
        lemma_le_value_bound(b.drop_first());
        let r = le_value(b.drop_first());
        let p = pow256((b.len() - 1) as nat);
        assert(b[0] as nat + 256 * r < 256 * p) by (nonlinear_arith)
            requires
                r < p,
                b[0] < 256,
        ;
    }
}

/// Reading back the `n` low-order bytes of `v` gives `v` when it fits.
pub proof fn lemma_le_roundtrip(v: nat, n: nat)
    requires
        v < pow256(n),
    ensures
        le_value(le_bytes(v, n)) == v,
    decreases n,
{
    if n > 0 {
        let p = pow256((n - 1) as nat);
        assert(v / 256 < p) by (nonlinear_arith)
            requires
                v < 256 * p,
        ;
        lemma_le_roundtrip(v / 256, (n - 1) as nat);
        assert(le_bytes(v, n).drop_first() =~= le_bytes(v / 256, (n - 1) as nat));
    }
}

/// Reading back an `n`-byte little-endian integer from the front of its
/// encoding followed by anything gives the value and what follows.
pub proof fn lemma_take_fixed_field(v: nat, n: nat, rest: Seq<u8>)
    requires
        v < pow256(n),
    ensures
        take_fixed(le_bytes(v, n) + rest, n) == Ok::<(nat, Seq<u8>), DecodeError>((v, rest)),
{
    lemma_le_bytes_len(v, n);
    lemma_le_roundtrip(v, n);
    let b = le_bytes(v, n) + rest;
    assert(b.take(n as int) =~= le_bytes(v, n));
    assert(b.skip(n as int) =~= rest);
}

/// The ranges of four- and eight-byte integers.
pub proof fn lemma_pow256_8()
    ensures
        pow256(8) == 0x1_0000_0000_0000_0000,
        pow256(4) == 0x1_0000_0000,
{
    reveal_with_fuel(pow256, 9);
}

/// Reading a `u32` field gives the value written and what follows.
pub proof fn lemma_take_u32(v: u32, rest: Seq<u8>)
    ensures
        take_fixed(u32_field(v) + rest, 4) == Ok::<(nat, Seq<u8>), DecodeError>((v as nat, rest)),
{
    lemma_pow256_8();
    lemma_take_fixed_field(v as nat, 4, rest);
}

/// Reading a `u64` field gives the value written and what follows.
pub proof fn lemma_take_u64(v: u64, rest: Seq<u8>)
    ensures
        take_fixed(u64_field(v) + rest, 8) == Ok::<(nat, Seq<u8>), DecodeError>((v as nat, rest)),
{
    lemma_pow256_8();
    lemma_take_fixed_field(v as nat, 8, rest);
}

/// Reading a `usize` field gives the value written and what follows.
pub proof fn lemma_take_usize(v: usize, rest: Seq<u8>)
    ensures
        take_usize(u64_field(v as u64) + rest) == Ok::<(usize, Seq<u8>), DecodeError>((v, rest)),
{
    lemma_take_u64(v as u64, rest);
}

/// Reading a byte-string field gives the bytes written and what follows.
pub proof fn lemma_take_bytes(b: Seq<u8>, rest: Seq<u8>)
    requires
        b.len() <= u64::MAX,
    ensures
        take_bytes(bytes_field(b) + rest) == Ok::<(Seq<u8>, Seq<u8>), DecodeError>((b, rest)),
{
    lemma_pow256_8();
    let whole = bytes_field(b) + rest;
    assert(whole =~= le_bytes(b.len(), 8) + (b + rest));
    lemma_take_fixed_field(b.len(), 8, b + rest);
    assert((b + rest).take(b.len() as int) =~= b);
    assert((b + rest).skip(b.len() as int) =~= rest);
}

/// Reading a text field gives the text written and what follows.
pub proof fn lemma_take_string(s: Seq<char>, rest: Seq<u8>)
    requires
        encode_utf8(s).len() <= u64::MAX,
    ensures
        take_string(string_field(s) + rest) == Ok::<(Seq<char>, Seq<u8>), DecodeError>((s, rest)),
{
    lemma_take_bytes(encode_utf8(s), rest);
}

/// Appends the `n` low-order bytes of `v`, least significant first.
pub fn push_le(out: &mut Vec<u8>, v: u64, n: usize)
    ensures
        final(out)@ == old(out)@ + le_bytes(v as nat, n as nat),
    decreases n,
{
    if n > 0 {
        out.push((v % 256) as u8);
        let ghost mid = out@;
        push_le(out, v / 256, n - 1);
        proof {
            assert(out@ =~= old(out)@ + le_bytes(v as nat, n as nat));
        }
    }
}

/// Appends the bytes of `src`.
pub fn push_all(out: &mut Vec<u8>, src: &[u8])
    ensures
        final(out)@ == old(out)@ + src@,
{
    let ghost start = out@;
    let n = src.len();
    let mut i: usize = 0;
    while i < n
        invariant
            n == src@.len(),
            i <= n,
            out@ == start + src@.take(i as int),
        decreases n - i,
    {
        out.push(src[i]);
        i = i + 1;
        proof {
            assert(src@.take(i as int) =~= src@.take(i - 1) .push(src@[i - 1]));
        }
    }
    proof {
        assert(src@.take(n as int) =~= src@);
    }
}

/// Appends a length-prefixed byte string.
pub fn push_bytes_field(out: &mut Vec<u8>, src: &[u8])
    ensures
        final(out)@ == old(out)@ + bytes_field(src@),
{
    push_le(out, src.len() as u64, 8);
    push_all(out, src);
    proof {
        assert(out@ =~= old(out)@ + bytes_field(src@));
    }
}

/// Appends a text as a length-prefixed UTF-8 byte string.
pub fn push_string_field(out: &mut Vec<u8>, s: &String)
    ensures
        final(out)@ == old(out)@ + string_field(s@),
{
    let bytes = s.as_str().as_bytes();
    push_bytes_field(out, bytes);
}

/// Reads the `n`-byte little-endian integer at `pos`.
fn read_le(data: &[u8], pos: usize, n: usize) -> (r: u64)
    requires
        n <= 8,
        pos + n <= data.len(),
    ensures
        r == le_value(data@.subrange(pos as int, pos + n)),
    decreases n,
{
    if n == 0 {
        0
    } else {
        let high = read_le(data, pos + 1, n - 1);
        let ghost tail = data@.subrange(pos + 1, pos + n);
        proof {
            lemma_le_value_bound(tail);
            lemma_pow256_8();
            lemma_pow256_monotone((n - 1) as nat, 7);
            assert(pow256(7) == 0x100_0000_0000_0000) by {
                reveal_with_fuel(pow256, 8);
            }
            assert(data@.subrange(pos as int, pos + n).drop_first() =~= tail);
        }
        data[pos] as u64 + 256 * high
    }
}

/// Powers of 256 grow with the exponent.
pub proof fn lemma_pow256_monotone(a: nat, b: nat)
    requires
        a <= b,
    ensures
        pow256(a) <= pow256(b),
    decreases b,
{
    if a < b {
        lemma_pow256_monotone(a, (b - 1) as nat);
        lemma_pow256_positive((b - 1) as nat);
    }
}

/// Reads the `n`-byte integer at `pos` (exec view of [`take_fixed`]).
pub fn take_fixed_at(data: &[u8], pos: usize, n: usize) -> (r: Result<(u64, usize), DecodeError>)
    requires
        pos <= data@.len(),
        n <= 8,
    ensures
        match take_fixed(data@.skip(pos as int), n as nat) {
            Err(e) => r == Err::<(u64, usize), DecodeError>(e),
            Ok((v, rest)) => r matches Ok((x, next)) && x == v && next == pos + n && next
                <= data@.len() && rest == data@.skip(next as int),
        },
{
    if data.len() - pos >= n {
        let v = read_le(data, pos, n);
        proof {
            assert(data@.skip(pos as int).take(n as int) =~= data@.subrange(pos as int, pos + n));
            assert(data@.skip(pos as int).skip(n as int) =~= data@.skip(pos + n));
        }
        Ok((v, pos + n))
    } else {
        Err(DecodeError::UnexpectedEnd)
    }
}

/// Reads the `usize` at `pos`.
pub fn take_usize_at(data: &[u8], pos: usize) -> (r: Result<(usize, usize), DecodeError>)
    requires
        pos <= data@.len(),
    ensures
        match take_usize(data@.skip(pos as int)) {
            Err(e) => r == Err::<(usize, usize), DecodeError>(e),
            Ok((v, rest)) => r matches Ok((x, next)) && x == v && next <= data@.len() && rest
                == data@.skip(next as int),
        },
{
    let (v, next) = take_fixed_at(data, pos, 8)?;
    if v as u128 <= usize::MAX as u128 {
        Ok((v as usize, next))
    } else {
        Err(DecodeError::ValueTooLarge)
    }
}

/// Reads the length-prefixed byte string at `pos`; gives where it lies.
fn take_bytes_range(data: &[u8], pos: usize) -> (r: Result<(usize, usize), DecodeError>)
    requires
        pos <= data@.len(),
    ensures
        match take_bytes(data@.skip(pos as int)) {
            Err(e) => r == Err::<(usize, usize), DecodeError>(e),
            Ok((bytes, rest)) => r matches Ok((start, end)) && start <= end <= data@.len()
                && bytes == data@.subrange(start as int, end as int) && rest == data@.skip(
                end as int,
            ),
        },
{
    let (len, start) = take_fixed_at(data, pos, 8)?;
    if len as u128 <= (data.len() - start) as u128 {
        let end = start + len as usize;
        proof {
            assert(data@.skip(start as int).take(len as int) =~= data@.subrange(
                start as int,
                end as int,
            ));
            assert(data@.skip(start as int).skip(len as int) =~= data@.skip(end as int));
        }
        Ok((start, end))
    } else {
        Err(DecodeError::UnexpectedEnd)
    }
}

/// Reads the length-prefixed byte string at `pos`.
pub fn take_bytes_at(data: &[u8], pos: usize) -> (r: Result<(Vec<u8>, usize), DecodeError>)
    requires
        pos <= data@.len(),
    ensures
        match take_bytes(data@.skip(pos as int)) {
            Err(e) => r == Err::<(Vec<u8>, usize), DecodeError>(e),
            Ok((bytes, rest)) => r matches Ok((v, next)) && v@ == bytes && next <= data@.len()
                && rest == data@.skip(next as int),
        },
{
    let (start, end) = take_bytes_range(data, pos)?;
    let mut v: Vec<u8> = Vec::new();
    push_all(&mut v, vstd::slice::slice_subrange(data, start, end));
    Ok((v, end))
}

/// Reads the length-prefixed UTF-8 text at `pos`.
pub fn take_string_at(data: &[u8], pos: usize) -> (r: Result<(String, usize), DecodeError>)
    requires
        pos <= data@.len(),
    ensures
        match take_string(data@.skip(pos as int)) {
            Err(e) => r == Err::<(String, usize), DecodeError>(e),
            Ok((s, rest)) => r matches Ok((t, next)) && t@ == s && next <= data@.len() && rest
                == data@.skip(next as int),
        },
{
    let (start, end) = take_bytes_range(data, pos)?;
    let bytes = vstd::slice::slice_subrange(data, start, end);
    match utf8_str(bytes) {
        Some(text) => {
            proof {
                vstd::utf8::decode_utf8_encode_utf8(bytes@);
            }
            Ok((String::from_str(text), end))
        },
        None => Err(DecodeError::InvalidUtf8),
    }
}

/// `std::str::from_utf8`: the bytes as text when they are valid UTF-8.
///
/// Claims that the call succeeds exactly on valid UTF-8 (vstd's `valid_utf8`,
/// which follows the standard's definition) and that the text's UTF-8 bytes
/// are the input.
#[verifier::external_body]
fn utf8_str(bytes: &[u8]) -> (r: Option<&str>)
    ensures
        r is Some <==> valid_utf8(bytes@),
        r matches Some(s) ==> encode_utf8(s@) == bytes@,
{
    std::str::from_utf8(bytes).ok()
}

} // verus!
