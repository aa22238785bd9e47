use vstd::prelude::*;
use vstd::slice::{slice_index_get, slice_subrange, slice_to_vec};
use vstd::utf8::{decode_utf8, encode_utf8, valid_utf8};

use crate::error::MqttError;

verus! {

broadcast use vstd::utf8::encode_utf8_valid_utf8, vstd::utf8::encode_utf8_decode_utf8;

/// Largest value a remaining-length field can carry: `128^4 - 1`.
pub const MAX_REMAINING_LENGTH: usize = 268435455;

// ------------------------------------------------------------------
// Big-endian integers
// ------------------------------------------------------------------

/// The two big-endian bytes of a u16: most significant byte first.
pub open spec fn enc_u16(v: u16) -> Seq<u8> {
    seq![(v / 256) as u8, (v % 256) as u8]
}

/// Read a big-endian u16 at position `i`; fails when fewer than two bytes remain.
pub open spec fn parse_u16(s: Seq<u8>, i: int) -> Result<(u16, int), MqttError> {
    if 0 <= i && i + 2 <= s.len() {
        Ok(((s[i] * 256 + s[i + 1]) as u16, i + 2))
    } else {
        Err(MqttError::RequiredByteMissing)
    }
}

/// The four big-endian bytes of a u32.
pub open spec fn enc_u32(v: u32) -> Seq<u8> {
    seq![
        (v / 0x1000000) as u8,
        ((v / 0x10000) % 256) as u8,
        ((v / 256) % 256) as u8,
        (v % 256) as u8,
    ]
}

/// Read a big-endian u32 at position `i`; fails when fewer than four bytes remain.
pub open spec fn parse_u32(s: Seq<u8>, i: int) -> Result<(u32, int), MqttError> {
    if 0 <= i && i + 4 <= s.len() {
        Ok(
            (
                (s[i] * 0x1000000 + s[i + 1] * 0x10000 + s[i + 2] * 256 + s[i + 3]) as u32,
                i + 4,
            ),
        )
    } else {
        Err(MqttError::MissingByte)
    }
}

/// Reading two bytes after writing them gives the u16 back.
pub proof fn lemma_parse_enc_u16(s: Seq<u8>, i: int, v: u16)
    requires
        0 <= i,
        i + 2 <= s.len(),
        s.subrange(i, i + 2) == enc_u16(v),
    ensures
        parse_u16(s, i) == Ok::<(u16, int), MqttError>((v, i + 2)),
{
    assert(s[i] == enc_u16(v)[0]);
    assert(s[i + 1] == enc_u16(v)[1]);
    assert((v / 256) * 256 + v % 256 == v) by (nonlinear_arith);
}

/// Read a big-endian u16: the most significant byte precedes the least
/// significant one on the wire.
pub fn unpack_u16(buf: &[u8], pos: usize) -> (r: Result<(u16, usize), MqttError>)
    ensures
        r matches Ok((v, n)) ==> parse_u16(buf@, pos as int) == Ok::<(u16, int), MqttError>(
            (v, n as int),
        ) && n == pos + 2,
        r matches Err(e) ==> parse_u16(buf@, pos as int) == Err::<(u16, int), MqttError>(e),
{
    if pos < buf.len() && buf.len() - pos >= 2 {
        let hi = *slice_index_get(buf, pos);
        let lo = *slice_index_get(buf, pos + 1);
        Ok(((hi as u16) * 256 + (lo as u16), pos + 2))
    } else {
        Err(MqttError::RequiredByteMissing)
    }
}

/// Read a big-endian u32.
pub fn unpack_u32(buf: &[u8], pos: usize) -> (r: Result<(u32, usize), MqttError>)
    ensures
        r matches Ok((v, n)) ==> parse_u32(buf@, pos as int) == Ok::<(u32, int), MqttError>(
            (v, n as int),
        ) && n == pos + 4,
        r matches Err(e) ==> parse_u32(buf@, pos as int) == Err::<(u32, int), MqttError>(e),
{
    if pos < buf.len() && buf.len() - pos >= 4 {
        let b0 = *slice_index_get(buf, pos);
        let b1 = *slice_index_get(buf, pos + 1);
        let b2 = *slice_index_get(buf, pos + 2);
        let b3 = *slice_index_get(buf, pos + 3);
        Ok(
            (
                (b0 as u32) * 0x1000000 + (b1 as u32) * 0x10000 + (b2 as u32) * 256 + (b3 as u32),
                pos + 4,
            ),
        )
    } else {
        Err(MqttError::MissingByte)
    }
}

// ------------------------------------------------------------------
// Length-prefixed UTF-8 strings
// ------------------------------------------------------------------

/// Whether a string's UTF-8 form fits the protocol's two-byte length prefix.
pub open spec fn str_fits(s: Seq<char>) -> bool {
    encode_utf8(s).len() <= 65535
}

/// The wire form of a string: a big-endian u16 byte count, then the UTF-8 bytes.
pub open spec fn enc_str(s: Seq<char>) -> Seq<u8> {
    enc_u16(encode_utf8(s).len() as u16) + encode_utf8(s)
}

/// Read a length-prefixed UTF-8 string at position `i`.
pub open spec fn parse_string(s: Seq<u8>, i: int) -> Result<(Seq<char>, int), MqttError> {
    match parse_u16(s, i) {
        Ok((len, j)) => {
            if j + len <= s.len() {
                let bytes = s.subrange(j, j + len);
                if valid_utf8(bytes) {
                    Ok((decode_utf8(bytes), j + len))
                } else {
                    Err(MqttError::MalformedString)
                }
            } else {
                Err(MqttError::MissingByte)
            }
        },
        Err(e) => Err(e),
    }
}

/// Reading a string after writing it gives the string back.
pub proof fn lemma_parse_enc_str(s: Seq<u8>, i: int, t: Seq<char>)
    requires
        0 <= i,
        str_fits(t),
        i + enc_str(t).len() <= s.len(),
        s.subrange(i, i + enc_str(t).len()) == enc_str(t),
    ensures
        parse_string(s, i) == Ok::<(Seq<char>, int), MqttError>(
            (t, i + 2 + encode_utf8(t).len()),
        ),
{
    let bytes = encode_utf8(t);
    let blen = bytes.len() as u16;
    assert(s.subrange(i, i + 2) =~= enc_str(t).subrange(0, 2));
    assert(enc_str(t).subrange(0, 2) =~= enc_u16(blen));
    lemma_parse_enc_u16(s, i, blen);
    assert(s.subrange(i + 2, i + 2 + bytes.len()) =~= enc_str(t).subrange(
        2,
        enc_str(t).len() as int,
    ));
    assert(enc_str(t).subrange(2, enc_str(t).len() as int) =~= bytes);
    assert(valid_utf8(bytes));
    assert(decode_utf8(bytes) == t);
}

/// Copy `len` bytes starting at `pos` out of the buffer.
pub fn unpack_bytes(buf: &[u8], pos: usize, len: usize) -> (r: Result<(Vec<u8>, usize), MqttError>)
    ensures
        r matches Ok((v, n)) ==> pos + len <= buf@.len() && v@ == buf@.subrange(
            pos as int,
            pos + len,
        ) && n == pos + len,
        r matches Err(e) ==> pos + len > buf@.len() && e == MqttError::MissingByte,
{
    if pos <= buf.len() && buf.len() - pos >= len {
        let part = slice_subrange(buf, pos, pos + len);
        Ok((slice_to_vec(part), pos + len))
    } else {
        Err(MqttError::MissingByte)
    }
}

/// Relies on String::from_utf8: the bytes decode to a string exactly when they
/// are valid UTF-8, and the decoded string's characters are those bytes' UTF-8
/// decoding.
#[verifier::external_body]
fn string_from_utf8(v: Vec<u8>) -> (r: Option<String>)
    ensures
        r is Some <==> valid_utf8(v@),
        r matches Some(s) ==> s@ == decode_utf8(v@),
{
    String::from_utf8(v).ok()
}

/// Read `len` bytes at `pos` and decode them as UTF-8.
pub fn unpack_string_with_len(buf: &[u8], pos: usize, len: usize) -> (r: Result<
    (String, usize),
    MqttError,
>)
    ensures
        r matches Ok((s, n)) ==> pos + len <= buf@.len() && valid_utf8(
            buf@.subrange(pos as int, pos + len),
        ) && s@ == decode_utf8(buf@.subrange(pos as int, pos + len)) && n == pos + len,
        r matches Err(e) ==> if pos + len > buf@.len() {
            e == MqttError::MissingByte
        } else {
            e == MqttError::MalformedString && !valid_utf8(buf@.subrange(pos as int, pos + len))
        },
{
    match unpack_bytes(buf, pos, len) {
        Ok((bytes, n)) => match string_from_utf8(bytes) {
            Some(s) => Ok((s, n)),
            None => Err(MqttError::MalformedString),
        },
        Err(e) => Err(e),
    }
}

/// Read a length-prefixed UTF-8 string: two length bytes, then that many bytes
/// of character data.
pub fn unpack_string(buf: &[u8], pos: usize) -> (r: Result<(String, usize), MqttError>)
    ensures
        r matches Ok((s, n)) ==> parse_string(buf@, pos as int) == Ok::<
            (Seq<char>, int),
            MqttError,
        >((s@, n as int)),
        r matches Err(e) ==> parse_string(buf@, pos as int) == Err::<(Seq<char>, int), MqttError>(
            e,
        ),
{
    match unpack_u16(buf, pos) {
        Ok((len, j)) => match unpack_string_with_len(buf, j, len as usize) {
            Ok((s, n)) => Ok((s, n)),
            Err(e) => Err(e),
        },
        Err(e) => Err(e),
    }
}

/// Read a name string followed by a value string.
pub open spec fn parse_string_pair(s: Seq<u8>, i: int) -> Result<
    ((Seq<char>, Seq<char>), int),
    MqttError,
> {
    match parse_string(s, i) {
        Ok((k, j)) => match parse_string(s, j) {
            Ok((v, n)) => Ok(((k, v), n)),
            Err(e) => Err(e),
        },
        Err(e) => Err(e),
    }
}

/// Read two length-prefixed strings: a name, then a value.
pub fn unpack_string_pair(buf: &[u8], pos: usize) -> (r: Result<((String, String), usize), MqttError>)
    ensures
        r matches Ok(((k, v), n)) ==> parse_string_pair(buf@, pos as int) == Ok::<
            ((Seq<char>, Seq<char>), int),
            MqttError,
        >(((k@, v@), n as int)),
        r matches Err(e) ==> parse_string_pair(buf@, pos as int) == Err::<
            ((Seq<char>, Seq<char>), int),
            MqttError,
        >(e),
{
    match unpack_string(buf, pos) {
        Ok((k, j)) => match unpack_string(buf, j) {
            Ok((v, n)) => Ok(((k, v), n)),
            Err(e) => Err(e),
        },
        Err(e) => Err(e),
    }
}

// ------------------------------------------------------------------
// The remaining-length field: 1 to 4 bytes, 7 data bits each, the high
// bit signalling continuation.
// ------------------------------------------------------------------

/// The minimal variable-length encoding of a remaining length.
pub open spec fn enc_varlen(n: int) -> Seq<u8>
    decreases n,
{
    if n < 128 {
        seq![n as u8]
    } else {
        seq![(128 + n % 128) as u8] + enc_varlen(n / 128)
    }
}

/// Read a remaining-length field at position `i`: the value and the position
/// after it. A missing byte or a fourth continuation bit is malformed.
pub open spec fn parse_varlen(s: Seq<u8>, i: int) -> Result<(int, int), MqttError> {
    if !(0 <= i < s.len()) {
        Err(MqttError::MalformedRemaingLength)
    } else {
        let b0 = s[i] as int;
        if b0 < 128 {
            Ok((b0, i + 1))
        } else if !(i + 1 < s.len()) {
            Err(MqttError::MalformedRemaingLength)
        } else {
            let b1 = s[i + 1] as int;
            if b1 < 128 {
                Ok(((b0 - 128) + 128 * b1, i + 2))
            } else if !(i + 2 < s.len()) {
                Err(MqttError::MalformedRemaingLength)
            } else {
                let b2 = s[i + 2] as int;
                if b2 < 128 {
                    Ok(((b0 - 128) + 128 * (b1 - 128) + 16384 * b2, i + 3))
                } else if !(i + 3 < s.len()) {
                    Err(MqttError::MalformedRemaingLength)
                } else {
                    let b3 = s[i + 3] as int;
                    if b3 < 128 {
                        Ok(
                            (
                                (b0 - 128) + 128 * (b1 - 128) + 16384 * (b2 - 128) + 2097152 * b3,
                                i + 4,
                            ),
                        )
                    } else {
                        Err(MqttError::MalformedRemaingLength)
                    }
                }
            }
        }
    }
}

/// The minimal encoding of `n` takes one byte below 128, two below 128^2,
/// three below 128^3 and four below 128^4.
pub proof fn lemma_enc_varlen_len(n: int)
    requires
        0 <= n <= MAX_REMAINING_LENGTH,
    ensures
        1 <= enc_varlen(n).len() <= 4,
        n < 128 <==> enc_varlen(n).len() == 1,
        128 <= n < 16384 <==> enc_varlen(n).len() == 2,
        16384 <= n < 2097152 <==> enc_varlen(n).len() == 3,
        2097152 <= n <==> enc_varlen(n).len() == 4,
{
    if n < 128 {
        assert(enc_varlen(n).len() == 1);
    } else {
        let n1 = n / 128;
        let n2 = n1 / 128;
        let n3 = n2 / 128;
        assert(1 <= n1 <= 2097151) by (nonlinear_arith)
            requires
                n1 == n / 128 && 128 <= n <= MAX_REMAINING_LENGTH,
        ;
        assert(n1 >= 128 <==> n >= 16384) by (nonlinear_arith)
            requires
                n1 == n / 128 && 0 <= n,
        ;
        assert(enc_varlen(n).len() == 1 + enc_varlen(n1).len());
        if n1 < 128 {
            assert(enc_varlen(n1).len() == 1);
        } else {
            assert(1 <= n2 <= 16383) by (nonlinear_arith)
                requires
                    n2 == n1 / 128 && 128 <= n1 <= 2097151,
            ;
            assert(n2 >= 128 <==> n1 >= 16384) by (nonlinear_arith)
                requires
                    n2 == n1 / 128 && 0 <= n1,
            ;
            assert(n1 >= 16384 <==> n >= 2097152) by (nonlinear_arith)
                requires
                    n1 == n / 128 && 0 <= n,
            ;
            assert(enc_varlen(n1).len() == 1 + enc_varlen(n2).len());
            if n2 < 128 {
                assert(enc_varlen(n2).len() == 1);
            } else {
                assert(0 <= n3 < 128) by (nonlinear_arith)
                    requires
                        n3 == n2 / 128 && 128 <= n2 <= 16383,
                ;
                assert(enc_varlen(n2).len() == 1 + enc_varlen(n3).len());
                assert(enc_varlen(n3).len() == 1);
            }
        }
    }
}

/// Reading a remaining-length field after writing the minimal encoding gives
/// the value back and consumes exactly its bytes.
pub proof fn lemma_parse_enc_varlen(s: Seq<u8>, i: int, n: int)
    requires
        0 <= i,
        0 <= n <= MAX_REMAINING_LENGTH,
        i + enc_varlen(n).len() <= s.len(),
        s.subrange(i, i + enc_varlen(n).len()) == enc_varlen(n),
    ensures
        parse_varlen(s, i) == Ok::<(int, int), MqttError>((n, i + enc_varlen(n).len())),
{
    lemma_enc_varlen_len(n);
    let e = enc_varlen(n);
    assert(forall|k: int| 0 <= k < e.len() ==> s[i + k] == #[trigger] e[k]) by {
        assert(forall|k: int|
            0 <= k < e.len() ==> s[i + k] == #[trigger] s.subrange(i, i + e.len() as int)[k]);
    }
    let n1 = n / 128;
    let n2 = n1 / 128;
    let n3 = n2 / 128;
    assert(0 <= n % 128 < 128 && 0 <= n1 % 128 < 128 && 0 <= n2 % 128 < 128) by (nonlinear_arith)
        requires
            n1 == n / 128 && n2 == n1 / 128 && 0 <= n,
    ;
    assert(0 <= n1 && 0 <= n2 && 0 <= n3) by (nonlinear_arith)
        requires
            n1 == n / 128 && n2 == n1 / 128 && n3 == n2 / 128 && 0 <= n,
    ;
    if n < 128 {
        assert(e =~= seq![n as u8]);
        assert(s[i] == e[0]);
        assert(e[0] == n as u8);
    } else if n1 < 128 {
        assert(e =~= seq![(128 + n % 128) as u8] + enc_varlen(n1));
        assert(enc_varlen(n1) =~= seq![n1 as u8]);
        assert(e[0] == (128 + n % 128) as u8 && e[1] == n1 as u8);
        assert(s[i] == e[0] && s[i + 1] == e[1]);
        assert((n % 128) + 128 * n1 == n) by (nonlinear_arith)
            requires
                n1 == n / 128 && 0 <= n,
        ;
    } else if n2 < 128 {
        assert(e =~= seq![(128 + n % 128) as u8] + enc_varlen(n1));
        assert(enc_varlen(n1) =~= seq![(128 + n1 % 128) as u8] + enc_varlen(n2));
        assert(enc_varlen(n2) =~= seq![n2 as u8]);
        assert(e[0] == (128 + n % 128) as u8 && e[1] == (128 + n1 % 128) as u8 && e[2]
            == n2 as u8);
        assert(s[i] == e[0] && s[i + 1] == e[1] && s[i + 2] == e[2]);
        assert((n % 128) + 128 * (n1 % 128) + 16384 * n2 == n) by (nonlinear_arith)
            requires
                n1 == n / 128 && n2 == n1 / 128 && 0 <= n,
        ;
    } else {
        assert(n3 < 128) by (nonlinear_arith)
            requires
                n1 == n / 128 && n2 == n1 / 128 && n3 == n2 / 128 && 0 <= n
                    <= MAX_REMAINING_LENGTH,
        ;
        assert(e =~= seq![(128 + n % 128) as u8] + enc_varlen(n1));
        assert(enc_varlen(n1) =~= seq![(128 + n1 % 128) as u8] + enc_varlen(n2));
        assert(enc_varlen(n2) =~= seq![(128 + n2 % 128) as u8] + enc_varlen(n3));
        assert(enc_varlen(n3) =~= seq![n3 as u8]);
        assert(e[0] == (128 + n % 128) as u8 && e[1] == (128 + n1 % 128) as u8 && e[2] == (128 + n2
            % 128) as u8 && e[3] == n3 as u8);
        assert(s[i] == e[0] && s[i + 1] == e[1] && s[i + 2] == e[2] && s[i + 3] == e[3]);
        assert((n % 128) + 128 * (n1 % 128) + 16384 * (n2 % 128) + 2097152 * n3 == n)
            by (nonlinear_arith)
            requires
                n1 == n / 128 && n2 == n1 / 128 && n3 == n2 / 128 && 0 <= n,
        ;
    }
}

/// Decode a remaining-length field: the value and how many bytes it took.
pub fn decode_length(buf: &[u8], pos: usize) -> (r: Result<(usize, usize), MqttError>)
    ensures
        r matches Ok((v, len)) ==> parse_varlen(buf@, pos as int) == Ok::<(int, int), MqttError>(
            (v as int, pos + len),
        ) && 1 <= len <= 4 && v <= MAX_REMAINING_LENGTH && pos + len <= buf@.len(),
        r matches Err(e) ==> parse_varlen(buf@, pos as int) == Err::<(int, int), MqttError>(e),
{
    if !(pos < buf.len()) {
        return Err(MqttError::MalformedRemaingLength);
    }
    let b0 = *slice_index_get(buf, pos);
    if b0 < 128 {
        return Ok((b0 as usize, 1));
    }
    if !(pos + 1 < buf.len()) {
        return Err(MqttError::MalformedRemaingLength);
    }
    let b1 = *slice_index_get(buf, pos + 1);
    if b1 < 128 {
        return Ok(((b0 as usize - 128) + 128 * (b1 as usize), 2));
    }
    if !(pos + 2 < buf.len()) {
        return Err(MqttError::MalformedRemaingLength);
    }
    let b2 = *slice_index_get(buf, pos + 2);
    if b2 < 128 {
        return Ok(
            ((b0 as usize - 128) + 128 * (b1 as usize - 128) + 16384 * (b2 as usize), 3),
        );
    }
    if !(pos + 3 < buf.len()) {
        return Err(MqttError::MalformedRemaingLength);
    }
    let b3 = *slice_index_get(buf, pos + 3);
    if b3 < 128 {
        return Ok(
            (
                (b0 as usize - 128) + 128 * (b1 as usize - 128) + 16384 * (b2 as usize - 128)
                    + 2097152 * (b3 as usize),
                4,
            ),
        );
    }
    Err(MqttError::MalformedRemaingLength)
}

/// Append the minimal variable-length encoding of `len` to the buffer.
pub fn encode_length(len: usize, bytes: &mut Vec<u8>)
    requires
        len <= MAX_REMAINING_LENGTH,
    ensures
        final(bytes)@ == old(bytes)@ + enc_varlen(len as int),
{
    let mut mlen = len;
    let ghost start = old(bytes)@;
    loop
        invariant_except_break
            mlen <= MAX_REMAINING_LENGTH,
            start + enc_varlen(len as int) =~= bytes@ + enc_varlen(mlen as int),
        ensures
            bytes@ =~= start + enc_varlen(len as int),
        decreases mlen,
    {
        let ghost m0 = mlen as int;
        let d = mlen % 128;
        mlen = mlen / 128;
        proof {
            vstd::arithmetic::div_mod::lemma_fundamental_div_mod(m0, 128);
            assert(m0 == 128 * (mlen as int) + d);
        }
        if mlen > 0 {
            bytes.push((d + 128) as u8);
            proof {
                assert(m0 >= 128);
                assert(enc_varlen(m0) =~= seq![(128 + m0 % 128) as u8] + enc_varlen(m0 / 128));
                assert(start + enc_varlen(len as int) =~= bytes@ + enc_varlen(mlen as int));
            }
        } else {
            let ghost before = bytes@;
            bytes.push(d as u8);
            proof {
                assert(m0 < 128);
                assert(enc_varlen(m0) =~= seq![m0 as u8]);
                assert(bytes@ =~= before + enc_varlen(m0));
                assert(start + enc_varlen(len as int) =~= bytes@);
            }
            break;
        }
    }
}

/// Append every byte of a slice to a vector.
pub fn push_bytes(out: &mut Vec<u8>, src: &[u8])
    ensures
        final(out)@ == old(out)@ + src@,
{
    let mut i: usize = 0;
    while i < src.len()
        invariant
            i <= src@.len(),
            out@ == old(out)@ + src@.subrange(0, i as int),
        decreases src@.len() - i,
    {
        out.push(*slice_index_get(src, i));
        proof {
            assert(old(out)@ + src@.subrange(0, i + 1) =~= (old(out)@ + src@.subrange(0, i as int)).push(
                src@[i as int],
            ));
        }
        i = i + 1;
    }
    proof {
        assert(src@.subrange(0, src@.len() as int) =~= src@);
    }
}

/// Append the two big-endian bytes of a u16.
pub fn push_u16(out: &mut Vec<u8>, v: u16)
    ensures
        final(out)@ == old(out)@ + enc_u16(v),
{
    out.push((v / 256) as u8);
    out.push((v % 256) as u8);
    proof {
        assert(old(out)@ + enc_u16(v) =~= old(out)@.push((v / 256) as u8).push((v % 256) as u8));
    }
}

/// Append a length-prefixed UTF-8 string.
pub fn push_string(out: &mut Vec<u8>, s: &String)
    requires
        str_fits(s@),
    ensures
        final(out)@ == old(out)@ + enc_str(s@),
{
    let bytes: &[u8] = s.as_str().as_bytes();
    push_u16(out, bytes.len() as u16);
    push_bytes(out, bytes);
    proof {
        assert(old(out)@ + enc_str(s@) =~= (old(out)@ + enc_u16(
            encode_utf8(s@).len() as u16,
        )) + encode_utf8(s@));
    }
}

} // verus!
