//! Reading and writing the wire format's primitives: LEB128 varints, length-
//! prefixed byte strings, bytes, little-endian integers and fixed-size arrays.
use vstd::prelude::*;
use crate::error::{WireError, WireFault};

verus! {

/// The LEB128 encoding of `v`: seven bits per byte, low bits first, the high
/// bit set on every byte but the last.
pub open spec fn varint_bytes(v: u64) -> Seq<u8>
    decreases v,
{
    if v < 0x80 {
        seq![v as u8]
    } else {
        proof {
            lemma_shift_decreases(v);
        }
        seq![(v as u8) | 0x80u8] + varint_bytes(v >> 7)
    }
}

pub proof fn lemma_shift_decreases(v: u64)
    requires
        v >= 0x80,
    ensures
        v >> 7 < v,
{
    assert(v >= 0x80 ==> v >> 7 < v) by (bit_vector);
}

/// Decoding a varint from position `i` of `s` with the bits `acc` gathered so
/// far: at most ten bytes are read; the value and the position after it.
pub open spec fn varint_from(s: Seq<u8>, i: nat, acc: u64) -> Result<(u64, nat), WireFault>
    decreases 10 - i,
{
    if i >= 10 {
        Err(WireFault::VarintTooLarge)
    } else if i >= s.len() {
        Err(WireFault::UnexpectedEof)
    } else {
        let b = s[i as int];
        let acc2 = acc | (((b & 0x7fu8) as u64) << ((7 * i) as u32));
        if b & 0x80u8 == 0 {
            Ok((acc2, i + 1))
        } else {
            varint_from(s, i + 1, acc2)
        }
    }
}

/// A varint at the front of `s`, and what follows it.
pub open spec fn parse_varint(s: Seq<u8>) -> Result<(u64, Seq<u8>), WireFault> {
    match varint_from(s, 0, 0) {
        Ok((v, n)) => Ok((v, s.skip(n as int))),
        Err(e) => Err(e),
    }
}

/// One byte at the front of `s`.
pub open spec fn parse_u8(s: Seq<u8>) -> Result<(u8, Seq<u8>), WireFault> {
    if s.len() == 0 {
        Err(WireFault::UnexpectedEof)
    } else {
        Ok((s[0], s.skip(1)))
    }
}

/// `n` bytes at the front of `s`.
pub open spec fn parse_take(s: Seq<u8>, n: int) -> Result<(Seq<u8>, Seq<u8>), WireFault> {
    if s.len() < n {
        Err(WireFault::UnexpectedEof)
    } else {
        Ok((s.take(n), s.skip(n)))
    }
}

/// A little-endian `u64` at the front of `s`.
pub open spec fn parse_u64(s: Seq<u8>) -> Result<(u64, Seq<u8>), WireFault> {
    match parse_take(s, 8) {
        Ok((b, rest)) => Ok((vstd::bytes::spec_u64_from_le_bytes(b), rest)),
        Err(e) => Err(e),
    }
}

/// A varint length and that many bytes, at the front of `s`.
pub open spec fn parse_bytes(s: Seq<u8>) -> Result<(Seq<u8>, Seq<u8>), WireFault> {
    match parse_varint(s) {
        Err(e) => Err(e),
        Ok((len, rest)) => parse_take(rest, (len as usize) as int),
    }
}

/// A byte string with its varint length in front.
pub open spec fn bytes_field(b: Seq<u8>) -> Seq<u8> {
    varint_bytes(b.len() as u64) + b
}

/// Appends the varint encoding of `value`.
pub fn put_varint(out: &mut Vec<u8>, value: u64)
    ensures
        final(out)@ == old(out)@ + varint_bytes(value),
{
    let mut value = value;
    let ghost start = old(out)@;
    let ghost initial = value;
    while value >= 0x80
        invariant
            start + varint_bytes(initial) == out@ + varint_bytes(value),
        decreases value,
    {
        let ghost before = out@;
        let ghost v0 = value;
        out.push((value as u8) | 0x80);
        proof {
            lemma_shift_decreases(value);
        }
        value = value >> 7;
        proof {
            assert(varint_bytes(v0) == seq![(v0 as u8) | 0x80u8] + varint_bytes(v0 >> 7));
            assert(before + varint_bytes(v0) =~= out@ + varint_bytes(value));
        }
    }
    out.push(value as u8);
    assert(out@ =~= start + varint_bytes(initial));
}

/// The low `7 * i` bits of `v`.
pub open spec fn low_bits(v: u64, i: nat) -> u64 {
    v & (((1u64 << ((7 * i) as u64)) - 1) as u64)
}

proof fn lemma_varint_step_bits(v: u64, sh: u64)
    requires
        sh <= 56,
    ensures
        (v & (((1u64 << sh) - 1) as u64)) | ((((((v >> sh) as u8) | 0x80u8) & 0x7fu8) as u64) << sh)
            == v & (((1u64 << ((sh + 7) as u64)) - 1) as u64),
        (v >> sh) >> 7u64 == v >> ((sh + 7) as u64),
{
    assert((v & (((1u64 << sh) - 1) as u64)) | ((((((v >> sh) as u8) | 0x80u8) & 0x7fu8) as u64)
        << sh) == v & (((1u64 << ((sh + 7) as u64)) - 1) as u64)) by (bit_vector)
        requires
            sh <= 56,
    ;
    assert((v >> sh) >> 7u64 == v >> ((sh + 7) as u64)) by (bit_vector)
        requires
            sh <= 56,
    ;
}

proof fn lemma_varint_last_bits(v: u64, sh: u64)
    requires
        sh <= 63,
        v >> sh < 0x80,
    ensures
        (v & (((1u64 << sh) - 1) as u64)) | (((((v >> sh) as u8) & 0x7fu8) as u64) << sh) == v,
        ((v >> sh) as u8) & 0x80u8 == 0,
{
    assert((v & (((1u64 << sh) - 1) as u64)) | (((((v >> sh) as u8) & 0x7fu8) as u64) << sh) == v)
        by (bit_vector)
        requires
            sh <= 63,
            v >> sh < 0x80,
    ;
    assert(((v >> sh) as u8) & 0x80u8 == 0) by (bit_vector)
        requires
            v >> sh < 0x80,
    ;
}

proof fn lemma_varint_high_bit(w: u64)
    requires
        w >= 0x80,
    ensures
        ((w as u8) | 0x80u8) & 0x80u8 != 0,
{
    assert(((w as u8) | 0x80u8) & 0x80u8 != 0) by (bit_vector);
}

proof fn lemma_shift_63(v: u64)
    ensures
        v >> 63u64 < 0x80,
        v & (((1u64 << 0u64) - 1) as u64) == 0,
{
    assert(v >> 63u64 < 0x80) by (bit_vector);
    assert(v & (((1u64 << 0u64) - 1) as u64) == 0) by (bit_vector);
}

/// Decoding from position `i`, where the encoding of the rest of `v` starts,
/// with the low bits of `v` already gathered, yields `v`.
proof fn lemma_varint_from_encoding(v: u64, s: Seq<u8>, i: nat)
    requires
        i <= 9,
        s.len() >= i + varint_bytes(v >> ((7 * i) as u64)).len(),
        s.subrange(i as int, (i + varint_bytes(v >> ((7 * i) as u64)).len()) as int) == varint_bytes(
            v >> ((7 * i) as u64),
        ),
    ensures
        varint_from(s, i, low_bits(v, i)) == Ok::<(u64, nat), WireFault>(
            (v, i + varint_bytes(v >> ((7 * i) as u64)).len()),
        ),
    decreases 10 - i,
{
    let sh = (7 * i) as u64;
    let w = v >> sh;
    let enc = varint_bytes(w);
    assert(s[i as int] == enc[0]);
    if w < 0x80 {
        lemma_varint_last_bits(v, sh);
        assert(enc == seq![w as u8]);
    } else {
        if i == 9 {
            lemma_shift_63(v);
            assert(false);
        }
        lemma_varint_step_bits(v, sh);
        lemma_varint_high_bit(w);
        assert(enc == seq![(w as u8) | 0x80u8] + varint_bytes(w >> 7));
        let rest = varint_bytes(w >> 7);
        let sh2 = (7 * (i + 1)) as u64;
        assert(sh2 == sh + 7);
        assert(w >> 7 == v >> sh2);
        assert(s.subrange((i + 1) as int, (i + 1 + rest.len()) as int) =~= rest) by {
            assert forall|j: int| 0 <= j < rest.len() implies s.subrange((i + 1) as int, (i + 1 + rest.len()) as int)[j]
                == rest[j] by {
                assert(s.subrange(i as int, (i + enc.len()) as int)[j + 1] == enc[j + 1]);
            }
        }
        lemma_varint_from_encoding(v, s, i + 1);
    }
}

proof fn lemma_varint_from_continued(s: Seq<u8>, i: nat, acc: u64)
    requires
        i <= 10,
        i <= s.len() || s.len() >= 10,
        forall|j: int| i <= j < 10 && j < s.len() ==> #[trigger] s[j] >= 0x80,
    ensures
        s.len() >= 10 ==> varint_from(s, i, acc) == Err::<(u64, nat), WireFault>(WireFault::VarintTooLarge),
        s.len() < 10 ==> varint_from(s, i, acc) == Err::<(u64, nat), WireFault>(WireFault::UnexpectedEof),
    decreases 10 - i,
{
    if i < 10 && i < s.len() {
        let b = s[i as int];
        assert(b >= 0x80 ==> b & 0x80u8 != 0) by (bit_vector);
        let acc2 = acc | (((b & 0x7fu8) as u64) << ((7 * i) as u32));
        lemma_varint_from_continued(s, i + 1, acc2);
    }
}

/// Reading a varint fails where its first ten bytes all carry the
/// continuation bit (too large), and where the input ends before a byte
/// without it, within the first ten (end of input).
pub proof fn lemma_varint_errors(s: Seq<u8>)
    ensures
        s.len() >= 10 && (forall|i: int| 0 <= i < 10 ==> #[trigger] s[i] >= 0x80) ==> parse_varint(s)
            == Err::<(u64, Seq<u8>), WireFault>(WireFault::VarintTooLarge),
        s.len() < 10 && (forall|i: int| 0 <= i < s.len() ==> #[trigger] s[i] >= 0x80) ==> parse_varint(s)
            == Err::<(u64, Seq<u8>), WireFault>(WireFault::UnexpectedEof),
{
    if (s.len() >= 10 && (forall|i: int| 0 <= i < 10 ==> #[trigger] s[i] >= 0x80)) || (s.len() < 10 && (
    forall|i: int| 0 <= i < s.len() ==> #[trigger] s[i] >= 0x80)) {
        lemma_varint_from_continued(s, 0, 0);
    }
}

/// A varint written and read back gives the value, and reading stops right after it.
pub proof fn lemma_varint_roundtrip(v: u64, rest: Seq<u8>)
    ensures
        parse_varint(varint_bytes(v) + rest) == Ok::<(u64, Seq<u8>), WireFault>((v, rest)),
{
    let s = varint_bytes(v) + rest;
    assert(v >> 0u64 == v) by (bit_vector);
    assert((7 * 0nat) as u64 == 0u64);
    assert(s.subrange(0, varint_bytes(v).len() as int) =~= varint_bytes(v));
    lemma_shift_63(v);
    assert(low_bits(v, 0) == 0);
    lemma_varint_from_encoding(v, s, 0);
    assert(s.skip(varint_bytes(v).len() as int) =~= rest);
}

/// Reads one byte.
pub fn take_u8(input: &mut &[u8]) -> (r: Result<u8, WireError>)
    ensures
        match parse_u8(old(input)@) {
            Ok((b, rest)) => r == Ok::<u8, WireError>(b) && final(input)@ == rest,
            Err(e) => r matches Err(x) && x@ == e && final(input)@ == old(input)@,
        },
{
    if input.len() == 0 {
        return Err(WireError::UnexpectedEof);
    }
    let byte = input[0];
    let (_, tail) = input.split_at(1);
    *input = tail;
    assert(tail@ =~= old(input)@.skip(1));
    Ok(byte)
}

/// Reads `n` bytes.
pub fn take<'a>(input: &mut &'a [u8], n: usize) -> (r: Result<&'a [u8], WireError>)
    ensures
        match parse_take(old(input)@, n as int) {
            Ok((b, rest)) => r matches Ok(x) && x@ == b && final(input)@ == rest,
            Err(e) => r matches Err(x) && x@ == e && final(input)@ == old(input)@,
        },
{
    if input.len() < n {
        return Err(WireError::UnexpectedEof);
    }
    let (head, tail) = input.split_at(n);
    *input = tail;
    assert(head@ =~= old(input)@.take(n as int));
    assert(tail@ =~= old(input)@.skip(n as int));
    Ok(head)
}

/// Reads a little-endian `u64`.
pub fn take_u64(input: &mut &[u8]) -> (r: Result<u64, WireError>)
    ensures
        match parse_u64(old(input)@) {
            Ok((v, rest)) => r == Ok::<u64, WireError>(v) && final(input)@ == rest,
            Err(e) => r matches Err(x) && x@ == e,
        },
{
    let bytes = take(input, 8)?;
    Ok(vstd::bytes::u64_from_le_bytes(bytes))
}

/// Reads `N` bytes into an array.
pub fn take_array<const N: usize>(input: &mut &[u8]) -> (r: Result<[u8; N], WireError>)
    ensures
        match parse_take(old(input)@, N as int) {
            Ok((b, rest)) => r matches Ok(x) && x@ == b && final(input)@ == rest,
            Err(e) => r matches Err(x) && x@ == e && final(input)@ == old(input)@,
        },
{
    let bytes = take(input, N)?;
    let mut out = [0u8; N];
    let mut i: usize = 0;
    while i < N
        invariant
            i <= N,
            bytes@.len() == N,
            out@.len() == N,
            forall|j: int| 0 <= j < i ==> out@[j] == bytes@[j],
        decreases N - i,
    {
        out[i] = bytes[i];
        i += 1;
    }
    assert(out@ =~= bytes@);
    Ok(out)
}

/// Reads a varint: at most ten bytes, seven bits each, low bits first.
pub fn get_varint(input: &mut &[u8]) -> (r: Result<u64, WireError>)
    ensures
        match parse_varint(old(input)@) {
            Ok((v, rest)) => r == Ok::<u64, WireError>(v) && final(input)@ == rest,
            Err(e) => r matches Err(x) && x@ == e,
        },
        r matches Err(x) ==> x is UnexpectedEof || x is VarintTooLarge,
        r is Ok ==> final(input)@.len() <= old(input)@.len(),
        r matches Err(x) && x is UnexpectedEof ==> final(input)@.len() == 0,
        r matches Err(x) && x is VarintTooLarge ==> final(input)@ == old(input)@.skip(10),
{
    let ghost s = old(input)@;
    let mut result = 0u64;
    let mut shift = 0u32;
    let mut i: usize = 0;
    while i < 10
        invariant
            s == old(input)@,
            i <= 10,
            shift == 7 * i,
            input@ == s.skip(i as int),
            i <= s.len(),
            varint_from(s, i as nat, result) == varint_from(s, 0, 0),
        decreases 10 - i,
    {
        let ghost before = input@;
        let byte = match take_u8(input) {
            Ok(b) => b,
            Err(e) => {
                assert(i == s.len());
                return Err(e);
            },
        };
        proof {
            assert(before[0] == s[i as int]);
        }
        let ghost old_result = result;
        result = result | (((byte & 0x7f) as u64) << shift);
        proof {
            assert(i < s.len());
            assert(result == old_result | (((s[i as int] & 0x7fu8) as u64) << ((7 * i) as u32)));
        }
        if byte & 0x80 == 0 {
            proof {
                assert(s.skip(i as int).skip(1) =~= s.skip(i + 1));
                assert(varint_from(s, i as nat, old_result) == Ok::<(u64, nat), WireFault>((result, (i + 1) as nat)));
            }
            return Ok(result);
        }
        shift = shift + 7;
        i += 1;
        proof {
            assert(before.skip(1) =~= s.skip(i as int));
        }
    }
    Err(WireError::VarintTooLarge)
}

/// Appends a byte string with its varint length in front.
pub fn put_bytes(out: &mut Vec<u8>, bytes: &[u8])
    ensures
        final(out)@ == old(out)@ + bytes_field(bytes@),
{
    put_varint(out, bytes.len() as u64);
    out.extend_from_slice(bytes);
    assert(final(out)@ =~= old(out)@ + bytes_field(bytes@));
}

/// Reads a byte string with its varint length in front.
pub fn get_bytes(input: &mut &[u8]) -> (r: Result<Vec<u8>, WireError>)
    ensures
        match parse_bytes(old(input)@) {
            Ok((b, rest)) => r matches Ok(x) && x@ == b && final(input)@ == rest,
            Err(e) => r matches Err(x) && x@ == e,
        },
{
    let len = match get_varint(input) {
        Ok(v) => v as usize,
        Err(e) => {
            return Err(e);
        },
    };
    let bytes = match take(input, len) {
        Ok(b) => b,
        Err(e) => {
            return Err(e);
        },
    };
    Ok(vstd::slice::slice_to_vec(bytes))
}

/// A byte string with its length in front reads back as itself.
pub proof fn lemma_bytes_roundtrip(b: Seq<u8>, rest: Seq<u8>)
    requires
        b.len() <= usize::MAX,
    ensures
        parse_bytes(bytes_field(b) + rest) == Ok::<(Seq<u8>, Seq<u8>), WireFault>((b, rest)),
{
    lemma_varint_roundtrip(b.len() as u64, b + rest);
    assert(bytes_field(b) + rest =~= varint_bytes(b.len() as u64) + (b + rest));
    assert((b + rest).take(b.len() as int) =~= b);
    assert((b + rest).skip(b.len() as int) =~= rest);
}

} // verus!
