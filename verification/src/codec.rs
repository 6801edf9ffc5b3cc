//! The wire forms of the values that packets are made of: big-endian
//! integers, booleans, variable-length integers and length-prefixed text.

use crate::var_int::{groups, signed, spec_decode, unsigned, Parsed, VarInt, VarIntDecodeError};
use vstd::prelude::*;
use vstd::utf8::{decode_utf8, encode_utf8, valid_utf8};

verus! {

/// Why bytes could not be read as the expected packet.
#[derive(Clone, Copy, Debug, PartialEq, Eq)]
pub enum DecodeError {
    /// The bytes end inside a value.
    UnexpectedEof,
    /// A variable-length integer holds no 32-bit value.
    VarIntTooLarge,
    /// A variable-length integer is written with more bytes than it needs.
    VarIntNotMinimal,
    /// A length is negative.
    NegativeLength,
    /// Text is not UTF-8.
    InvalidUtf8,
    /// A boolean is neither 0 nor 1.
    InvalidBool,
    /// The next state named by a handshake is neither status nor login.
    InvalidNextState,
    /// The packet carries another id than the expected one.
    WrongPacketId,
    /// Bytes are left after the last field.
    TrailingBytes,
    /// A frame announces a length that is negative or over the limit.
    LengthOutOfBounds,
    /// A status is no JSON object.
    InvalidJson,
}

/// The longest content of a frame, in bytes.
pub const MAX_PACKET_SIZE: usize = 2097152;

/// Why a packet could not be written.
#[derive(Clone, Copy, Debug, PartialEq, Eq)]
pub enum EncodeError {
    /// The packet's content is longer than a frame may be.
    PacketTooLarge,
}

/// 256 to the power `n`.
pub open spec fn pow256(n: nat) -> nat
    decreases n,
{
    if n == 0 {
        1
    } else {
        256 * pow256((n - 1) as nat)
    }
}

/// The number that `s` holds, most significant byte first.
pub open spec fn be_value(s: Seq<u8>) -> nat
    decreases s.len(),
{
    if s.len() == 0 {
        0
    } else {
        256 * be_value(s.drop_last()) + s.last() as nat
    }
}

/// The `n` low bytes of `v`, most significant first.
pub open spec fn be_bytes(v: nat, n: nat) -> Seq<u8>
    decreases n,
{
    if n == 0 {
        Seq::empty()
    } else {
        be_bytes(v / 256, (n - 1) as nat).push((v % 256) as u8)
    }
}

/// Reads `n` bytes at `pos` as a big-endian number.
pub open spec fn read_be(bytes: Seq<u8>, pos: int, n: nat) -> Result<(nat, int), DecodeError> {
    if pos + n > bytes.len() {
        Err(DecodeError::UnexpectedEof)
    } else {
        Ok((be_value(bytes.subrange(pos, pos + n)), pos + n))
    }
}

/// Reads a boolean at `pos`: one byte, 0 or 1.
pub open spec fn read_bool(bytes: Seq<u8>, pos: int) -> Result<(bool, int), DecodeError> {
    if pos >= bytes.len() {
        Err(DecodeError::UnexpectedEof)
    } else if bytes[pos] > 1 {
        Err(DecodeError::InvalidBool)
    } else {
        Ok((bytes[pos] == 1, pos + 1))
    }
}

/// The wire form of a boolean.
pub open spec fn bool_bytes(b: bool) -> Seq<u8> {
    if b {
        seq![1u8]
    } else {
        seq![0u8]
    }
}

/// The error of a packet or a frame in which a variable-length integer
/// could not be read.
pub open spec fn wire_error(e: VarIntDecodeError) -> DecodeError {
    match e {
        VarIntDecodeError::Incomplete => DecodeError::UnexpectedEof,
        VarIntDecodeError::TooLarge => DecodeError::VarIntTooLarge,
        VarIntDecodeError::NotMinimal => DecodeError::VarIntNotMinimal,
    }
}

/// Reads a variable-length integer at `pos`, as a signed 32-bit value.
pub open spec fn read_var_int(bytes: Seq<u8>, pos: int) -> Result<(int, int), DecodeError> {
    match spec_decode(bytes, pos) {
        Parsed::Value { value, consumed } => Ok((signed(value), pos + consumed)),
        Parsed::Incomplete => Err(DecodeError::UnexpectedEof),
        Parsed::Malformed(e) => Err(wire_error(e)),
    }
}

/// The wire form of text: the number of its UTF-8 bytes as a
/// variable-length integer, then the bytes.
pub open spec fn string_bytes(chars: Seq<char>) -> Seq<u8> {
    groups(encode_utf8(chars).len()) + encode_utf8(chars)
}

/// Reads text at `pos`.
pub open spec fn read_string(bytes: Seq<u8>, pos: int) -> Result<(Seq<char>, int), DecodeError> {
    match read_var_int(bytes, pos) {
        Err(e) => Err(e),
        Ok((len, start)) => if len < 0 {
            Err(DecodeError::NegativeLength)
        } else if start + len > bytes.len() {
            Err(DecodeError::UnexpectedEof)
        } else if !valid_utf8(bytes.subrange(start, start + len)) {
            Err(DecodeError::InvalidUtf8)
        } else {
            Ok((decode_utf8(bytes.subrange(start, start + len)), start + len))
        },
    }
}

proof fn lemma_pow256_values()
    ensures
        pow256(0) == 1,
        pow256(1) == 0x100,
        pow256(2) == 0x1_0000,
        pow256(8) == 0x1_0000_0000_0000_0000,
        pow256(16) == 0x1_0000_0000_0000_0000_0000_0000_0000_0000,
{
    reveal_with_fuel(pow256, 17);
}

/// Big-endian round trip: the `n` bytes written for `v` read back as `v`.
pub proof fn lemma_be_round_trip(v: nat, n: nat)
    requires
        v < pow256(n),
    ensures
        be_bytes(v, n).len() == n,
        be_value(be_bytes(v, n)) == v,
    decreases n,
{
    if n > 0 {
        lemma_be_round_trip(v / 256, (n - 1) as nat);
        assert(be_bytes(v, n).drop_last() =~= be_bytes(v / 256, (n - 1) as nat));
    }
}

/// The `n` bytes written for a number have length `n`.
pub proof fn lemma_be_bytes_len(v: nat, n: nat)
    ensures
        be_bytes(v, n).len() == n,
    decreases n,
{
    if n > 0 {
        lemma_be_bytes_len(v / 256, (n - 1) as nat);
    }
}

fn be_fold(bytes: &[u8], pos: usize, n: usize) -> (v: u128)
    requires
        pos + n <= bytes@.len(),
        n <= 16,
    ensures
        v == be_value(bytes@.subrange(pos as int, pos + n)),
        v < pow256(n as nat),
    decreases n,
{
    if n == 0 {
        0
    } else {
        let high: u128 = be_fold(bytes, pos, n - 1);
        let len: usize = bytes.len();
        let low: u8 = bytes[pos + (n - 1)];
        proof {
            let s = bytes@.subrange(pos as int, pos + n);
            assert(s.drop_last() =~= bytes@.subrange(pos as int, pos + n - 1));
            assert(pow256(n as nat) <= pow256(16)) by {
                lemma_pow256_monotone(n as nat, 16);
            }
            lemma_pow256_values();
        }
        high * 256 + low as u128
    }
}

proof fn lemma_pow256_monotone(a: nat, b: nat)
    requires
        a <= b,
    ensures
        pow256(a) <= pow256(b),
        pow256(a) >= 1,
    decreases b,
{
    if a < b {
        lemma_pow256_monotone(a, (b - 1) as nat);
    } else if a > 0 {
        lemma_pow256_monotone((a - 1) as nat, (a - 1) as nat);
    }
}

/// Reads `n` bytes at `pos` as a big-endian number, `n` at most 16.
pub fn get_be(bytes: &[u8], pos: usize, n: usize) -> (r: Result<(u128, usize), DecodeError>)
    requires
        n <= 16,
    ensures
        match read_be(bytes@, pos as int, n as nat) {
            Ok((v, next)) => r matches Ok((x, m)) && x == v && m == next && v < pow256(n as nat)
                && pos <= next <= bytes@.len(),
            Err(e) => r == Err::<(u128, usize), DecodeError>(e),
        },
{
    if pos > bytes.len() || n > bytes.len() - pos {
        return Err(DecodeError::UnexpectedEof);
    }
    let v: u128 = be_fold(bytes, pos, n);
    Ok((v, pos + n))
}

/// Appends the `n` low bytes of `v`, most significant first.
pub fn put_be(out: &mut Vec<u8>, v: u128, n: usize)
    ensures
        final(out)@ == old(out)@ + be_bytes(v as nat, n as nat),
    decreases n,
{
    if n > 0 {
        put_be(out, v / 256, n - 1);
        out.push((v % 256) as u8);
    }
}

/// Reads a boolean at `pos`.
pub fn get_bool(bytes: &[u8], pos: usize) -> (r: Result<(bool, usize), DecodeError>)
    ensures
        match read_bool(bytes@, pos as int) {
            Ok((v, next)) => r matches Ok((x, n)) && x == v && n == next && pos < next
                <= bytes@.len(),
            Err(e) => r == Err::<(bool, usize), DecodeError>(e),
        },
{
    if pos >= bytes.len() {
        return Err(DecodeError::UnexpectedEof);
    }
    let b: u8 = bytes[pos];
    if b > 1 {
        return Err(DecodeError::InvalidBool);
    }
    Ok((b == 1, pos + 1))
}

/// Appends a boolean.
pub fn put_bool(out: &mut Vec<u8>, b: bool)
    ensures
        final(out)@ == old(out)@ + bool_bytes(b),
{
    if b {
        out.push(1);
    } else {
        out.push(0);
    }
}

/// Reads a variable-length integer at `pos`.
pub fn get_var_int(bytes: &[u8], pos: usize) -> (r: Result<(i32, usize), DecodeError>)
    ensures
        match read_var_int(bytes@, pos as int) {
            Ok((v, next)) => r matches Ok((x, n)) && x == v && n == next && pos < next
                <= bytes@.len(),
            Err(e) => r == Err::<(i32, usize), DecodeError>(e),
        },
{
    proof {
        crate::var_int::lemma_parse_groups_minimal(bytes@, pos as int, 5);
    }
    match VarInt::decode(bytes, pos) {
        Ok((value, next)) => Ok((value.0, next)),
        Err(VarIntDecodeError::Incomplete) => Err(DecodeError::UnexpectedEof),
        Err(VarIntDecodeError::TooLarge) => Err(DecodeError::VarIntTooLarge),
        Err(VarIntDecodeError::NotMinimal) => Err(DecodeError::VarIntNotMinimal),
    }
}

/// Appends a variable-length integer.
pub fn put_var_int(out: &mut Vec<u8>, v: i32)
    ensures
        final(out)@ == old(out)@ + groups(unsigned(v)),
{
    VarInt(v).encode(out);
}

/// `String::from_utf8`: the text that the bytes encode, where they are
/// well-formed UTF-8, and nothing where they are not.
#[verifier::external_body]
fn string_from_utf8(bytes: &[u8]) -> (r: Option<String>)
    ensures
        r is Some <==> valid_utf8(bytes@),
        r matches Some(s) ==> s@ == decode_utf8(bytes@),
{
    String::from_utf8(bytes.to_vec()).ok()
}

/// The bytes of `bytes` from `from` up to `to`.
pub fn slice_range(bytes: &[u8], from: usize, to: usize) -> (r: Vec<u8>)
    requires
        from <= to <= bytes@.len(),
    ensures
        r@ == bytes@.subrange(from as int, to as int),
{
    let mut r: Vec<u8> = Vec::new();
    let mut i: usize = from;
    while i < to
        invariant
            from <= i <= to,
            to <= bytes@.len(),
            r@ == bytes@.subrange(from as int, i as int),
        decreases to - i,
    {
        r.push(bytes[i]);
        i = i + 1;
    }
    r
}

/// Appends `bytes`.
pub fn put_bytes(out: &mut Vec<u8>, bytes: &[u8])
    ensures
        final(out)@ == old(out)@ + bytes@,
{
    let mut i: usize = 0;
    let ghost before = out@;
    while i < bytes.len()
        invariant
            i <= bytes.len(),
            out@ == before + bytes@.take(i as int),
        decreases bytes.len() - i,
    {
        out.push(bytes[i]);
        i = i + 1;
    }
    assert(bytes@.take(bytes@.len() as int) =~= bytes@);
}

/// Reads text at `pos`.
pub fn get_string(bytes: &[u8], pos: usize) -> (r: Result<(String, usize), DecodeError>)
    ensures
        match read_string(bytes@, pos as int) {
            Ok((v, next)) => r matches Ok((s, n)) && s@ == v && n == next && next <= bytes@.len(),
            Err(e) => r matches Err(f) && f == e,
        },
{
    let (len, start) = match get_var_int(bytes, pos) {
        Ok(pair) => pair,
        Err(e) => {
            return Err(e);
        },
    };
    if len < 0 {
        return Err(DecodeError::NegativeLength);
    }
    if len as usize > bytes.len() - start {
        return Err(DecodeError::UnexpectedEof);
    }
    let end: usize = start + len as usize;
    let raw: Vec<u8> = slice_range(bytes, start, end);
    match string_from_utf8(raw.as_slice()) {
        Some(s) => Ok((s, end)),
        None => Err(DecodeError::InvalidUtf8),
    }
}

/// Appends text, whose UTF-8 form is at most `i32::MAX` bytes long.
pub fn put_string(out: &mut Vec<u8>, s: &str)
    requires
        encode_utf8(s@).len() <= i32::MAX,
    ensures
        final(out)@ == old(out)@ + string_bytes(s@),
{
    let raw: &[u8] = s.as_bytes();
    put_var_int(out, raw.len() as i32);
    put_bytes(out, raw);
}

/// A variable-length integer reads back where its encoding stands.
pub proof fn lemma_read_var_int_at(s: Seq<u8>, pos: int, x: i32)
    requires
        0 <= pos,
        pos + groups(unsigned(x)).len() <= s.len(),
        s.subrange(pos, pos + groups(unsigned(x)).len()) == groups(unsigned(x)),
    ensures
        read_var_int(s, pos) == Ok::<(int, int), DecodeError>(
            (x as int, pos + groups(unsigned(x)).len()),
        ),
        1 <= groups(unsigned(x)).len() <= 5,
{
    crate::var_int::lemma_decode_encode(Seq::empty(), x, Seq::empty());
    crate::var_int::lemma_parse_groups_of(s, pos, unsigned(x), 5);
}

/// A big-endian number reads back where its bytes stand.
pub proof fn lemma_read_be_at(s: Seq<u8>, pos: int, v: nat, n: nat)
    requires
        0 <= pos,
        pos + n <= s.len(),
        v < pow256(n),
        s.subrange(pos, pos + n) == be_bytes(v, n),
    ensures
        read_be(s, pos, n) == Ok::<(nat, int), DecodeError>((v, pos + n)),
{
    lemma_be_round_trip(v, n);
}

/// A boolean reads back where its byte stands.
pub proof fn lemma_read_bool_at(s: Seq<u8>, pos: int, b: bool)
    requires
        0 <= pos,
        pos + 1 <= s.len(),
        s.subrange(pos, pos + 1) == bool_bytes(b),
    ensures
        read_bool(s, pos) == Ok::<(bool, int), DecodeError>((b, pos + 1)),
{
    assert(s.subrange(pos, pos + 1)[0] == s[pos]);
}

/// Text reads back where its wire form stands.
pub proof fn lemma_read_string_at(s: Seq<u8>, pos: int, chars: Seq<char>)
    requires
        0 <= pos,
        encode_utf8(chars).len() <= i32::MAX,
        pos + string_bytes(chars).len() <= s.len(),
        s.subrange(pos, pos + string_bytes(chars).len()) == string_bytes(chars),
    ensures
        read_string(s, pos) == Ok::<(Seq<char>, int), DecodeError>(
            (chars, pos + string_bytes(chars).len()),
        ),
{
    let raw = encode_utf8(chars);
    let len = raw.len() as i32;
    let head = groups(unsigned(len));
    let whole = string_bytes(chars);
    crate::var_int::lemma_decode_encode(Seq::empty(), len, Seq::empty());
    assert(s.subrange(pos, pos + head.len()) =~= head) by {
        assert forall|j: int| 0 <= j < head.len() implies #[trigger] s.subrange(
            pos,
            pos + head.len(),
        )[j] == head[j] by {
            assert(s.subrange(pos, pos + whole.len())[j] == whole[j]);
        }
    }
    lemma_read_var_int_at(s, pos, len);
    let start = pos + head.len();
    assert(s.subrange(start, start + raw.len()) =~= raw) by {
        assert forall|j: int| 0 <= j < raw.len() implies #[trigger] s.subrange(
            start,
            start + raw.len(),
        )[j] == raw[j] by {
            assert(s.subrange(pos, pos + whole.len())[head.len() + j] == whole[head.len() + j]);
        }
    }
    vstd::utf8::encode_utf8_valid_utf8(chars);
    vstd::utf8::encode_utf8_decode_utf8(chars);
}

} // verus!
