//! Variable-length integers: seven data bits per byte, least significant
//! group first, the high bit of a byte set when another byte follows.

use vstd::prelude::*;

verus! {

/// The longest encoding of a 32-bit value, in bytes.
pub const MAX_SIZE: usize = 5;

/// The 32-bit pattern of `x` read as an unsigned number.
pub open spec fn unsigned(x: i32) -> nat {
    if x >= 0 {
        x as nat
    } else {
        (x + 0x1_0000_0000) as nat
    }
}

/// The signed number whose 32-bit pattern is `v`.
pub open spec fn signed(v: nat) -> int
    recommends
        v < 0x1_0000_0000,
{
    if v < 0x8000_0000 {
        v as int
    } else {
        v - 0x1_0000_0000
    }
}

/// The seven-bit groups of `v`, least significant first. Every group but the
/// last carries the continuation bit.
pub open spec fn groups(v: nat) -> Seq<u8>
    decreases v,
{
    if v < 128 {
        seq![v as u8]
    } else {
        seq![(v % 128 + 128) as u8] + groups(v / 128)
    }
}

/// The encoding of `x`.
pub open spec fn spec_encode(x: i32) -> Seq<u8> {
    groups(unsigned(x))
}

/// Why a variable-length integer could not be read.
#[derive(Clone, Copy, Debug, PartialEq, Eq)]
pub enum VarIntDecodeError {
    /// More bytes are needed.
    Incomplete,
    /// The bytes hold no 32-bit value: a sixth group follows, or the value
    /// takes more than 32 bits.
    TooLarge,
    /// The value is written with more groups than it needs.
    NotMinimal,
}

/// What reading a variable-length integer from a byte sequence yields.
pub enum Parsed {
    /// The bytes end before the last group.
    Incomplete,
    /// No value is encoded here, for the reason given.
    Malformed(VarIntDecodeError),
    /// A value, and the number of bytes it took.
    Value { value: nat, consumed: nat },
}

/// Reads groups from `bytes` at `pos`, at most `limit` of them.
pub open spec fn parse_groups(bytes: Seq<u8>, pos: int, limit: nat) -> Parsed
    decreases limit,
{
    if limit == 0 {
        Parsed::Malformed(VarIntDecodeError::TooLarge)
    } else if pos >= bytes.len() {
        Parsed::Incomplete
    } else if bytes[pos] < 128 {
        Parsed::Value { value: bytes[pos] as nat, consumed: 1 }
    } else {
        match parse_groups(bytes, pos + 1, (limit - 1) as nat) {
            Parsed::Value { value, consumed } => Parsed::Value {
                value: (bytes[pos] - 128) as nat + 128 * value,
                consumed: consumed + 1,
            },
            other => other,
        }
    }
}

/// A value as it is accepted: it fits 32 bits, and it is written with as
/// few groups as it allows.
pub open spec fn accepted(value: nat, consumed: nat) -> Parsed {
    if value >= 0x1_0000_0000 {
        Parsed::Malformed(VarIntDecodeError::TooLarge)
    } else if groups(value).len() != consumed {
        Parsed::Malformed(VarIntDecodeError::NotMinimal)
    } else {
        Parsed::Value { value, consumed }
    }
}

/// Reads one variable-length integer from `bytes` at `pos`: at most five
/// groups, whose value fits 32 bits and needs every one of them. So the
/// only bytes that read as a value are the encoding of that value.
pub open spec fn spec_decode(bytes: Seq<u8>, pos: int) -> Parsed {
    match parse_groups(bytes, pos, 5) {
        Parsed::Value { value, consumed } => accepted(value, consumed),
        other => other,
    }
}

/// A 32-bit signed integer with a variable-length encoding.
#[derive(Clone, Copy, Debug, PartialEq, Eq)]
pub struct VarInt(pub i32);

fn to_unsigned(x: i32) -> (v: u32)
    ensures
        v == unsigned(x),
{
    if x >= 0 {
        x as u32
    } else {
        (x as i64 + 0x1_0000_0000i64) as u32
    }
}

fn to_signed(v: u32) -> (x: i32)
    ensures
        x == signed(v as nat),
        unsigned(x) == v,
{
    if v < 0x8000_0000 {
        v as i32
    } else {
        (v as i64 - 0x1_0000_0000i64) as i32
    }
}

impl VarInt {
    /// The number of bytes `encode` writes.
    pub fn written_size(&self) -> (n: usize)
        ensures
            n == spec_encode(self.0).len(),
            1 <= n <= MAX_SIZE,
    {
        let mut v: u32 = to_unsigned(self.0);
        let mut n: usize = 1;
        proof {
            assert(pow128(5) == 34359738368) by {
                reveal_with_fuel(pow128, 6);
            }
            lemma_groups_len(v as nat, 5);
        }
        while v >= 128
            invariant
                n + groups(v as nat).len() == 1 + spec_encode(self.0).len(),
                1 <= n,
                spec_encode(self.0).len() <= 5,
            decreases v,
        {
            v = v / 128;
            n = n + 1;
        }
        n
    }

    /// Appends the encoding of the value to `out`.
    pub fn encode(&self, out: &mut Vec<u8>)
        ensures
            final(out)@ == old(out)@ + spec_encode(self.0),
    {
        let mut v: u32 = to_unsigned(self.0);
        let ghost before = out@;
        while v >= 128
            invariant
                out@ + groups(v as nat) =~= before + spec_encode(self.0),
            decreases v,
        {
            out.push((v % 128 + 128) as u8);
            v = v / 128;
        }
        out.push(v as u8);
    }

    /// Reads one value from `bytes` at `pos`, and says where the next item
    /// starts.
    pub fn decode(bytes: &[u8], pos: usize) -> (r: Result<(VarInt, usize), VarIntDecodeError>)
        ensures
            match spec_decode(bytes@, pos as int) {
                Parsed::Value { value, consumed } => r matches Ok((x, next)) && x.0 == signed(value)
                    && next == pos + consumed && 1 <= consumed <= 5 && next <= bytes@.len(),
                Parsed::Incomplete => r == Err::<(VarInt, usize), VarIntDecodeError>(
                    VarIntDecodeError::Incomplete,
                ),
                Parsed::Malformed(e) => r == Err::<(VarInt, usize), VarIntDecodeError>(e) && e
                    != VarIntDecodeError::Incomplete,
            },
    {
        let len: usize = bytes.len();
        if pos >= len {
            return Err(VarIntDecodeError::Incomplete);
        }
        let mut value: u64 = 0;
        let mut scale: u64 = 1;
        let mut i: usize = 0;
        while i < 5
            invariant
                i <= 5,
                len == bytes@.len(),
                pos + i <= len,
                scale == pow128(i as nat),
                value < scale,
                spec_decode(bytes@, pos as int) == lift(
                    parse_groups(bytes@, pos + i, (5 - i) as nat),
                    value as nat,
                    scale as nat,
                    i as nat,
                ),
            decreases 5 - i,
        {
            if pos + i >= len {
                return Err(VarIntDecodeError::Incomplete);
            }
            let b: u8 = bytes[pos + i];
            proof {
                lemma_pow128_step(i as nat);
                assert((b as u64) * scale <= 255 * 268435456) by (nonlinear_arith)
                    requires
                        b <= 255,
                        scale <= 268435456,
                ;
                assert(scale * 128 > value + (b - 128) * scale) by (nonlinear_arith)
                    requires
                        b >= 128 ==> b - 128 <= 127,
                        value < scale,
                        b <= 255,
                ;
            }
            if b < 128 {
                assert(scale * b == b * scale) by (nonlinear_arith);
                let total: u64 = value + (b as u64) * scale;
                if total >= 0x1_0000_0000 {
                    return Err(VarIntDecodeError::TooLarge);
                }
                proof {
                    if i > 0 && b == 0 {
                        assert(b * scale == 0) by (nonlinear_arith)
                            requires
                                b == 0,
                        ;
                        lemma_groups_len(total as nat, i as nat);
                    } else {
                        assert(value + b * scale < 128 * scale) by (nonlinear_arith)
                            requires
                                b <= 127,
                                value < scale,
                        ;
                        if i > 0 {
                            assert(b * scale >= scale) by (nonlinear_arith)
                                requires
                                    b >= 1,
                                    scale >= 0,
                            ;
                        }
                        lemma_groups_count(total as nat, (i + 1) as nat);
                    }
                }
                if i > 0 && b == 0 {
                    return Err(VarIntDecodeError::NotMinimal);
                }
                return Ok((VarInt(to_signed(total as u32)), pos + i + 1));
            }
            proof {
                let rest = parse_groups(bytes@, pos + i + 1, (4 - i) as nat);
                if let Parsed::Value { value: v, consumed } = rest {
                    assert(scale * ((b - 128) + 128 * v) == (b - 128) * scale + (scale * 128) * v)
                        by (nonlinear_arith);
                }
            }
            value = value + ((b - 128) as u64) * scale;
            scale = scale * 128;
            i = i + 1;
        }
        Err(VarIntDecodeError::TooLarge)
    }
}

/// 128 to the power `n`.
pub open spec fn pow128(n: nat) -> nat
    decreases n,
{
    if n == 0 {
        1
    } else {
        128 * pow128((n - 1) as nat)
    }
}

/// The result of the whole read, given that `i` groups worth `acc` came
/// first and `rest` is what reading the others gives.
spec fn lift(rest: Parsed, acc: nat, scale: nat, i: nat) -> Parsed {
    match rest {
        Parsed::Value { value, consumed } => accepted(acc + scale * value, consumed + i),
        other => other,
    }
}

proof fn lemma_pow128_step(i: nat)
    requires
        i < 5,
    ensures
        pow128(i + 1) == 128 * pow128(i),
        pow128(i) <= 268435456,
        pow128(i) >= 1,
{
    reveal_with_fuel(pow128, 6);
}

/// A value from 128 to the `k - 1` on and below 128 to the `k` has exactly
/// `k` groups.
pub proof fn lemma_groups_count(v: nat, k: nat)
    requires
        k >= 1,
        k >= 2 ==> v >= pow128((k - 1) as nat),
        v < pow128(k),
    ensures
        groups(v).len() == k,
    decreases k,
{
    reveal_with_fuel(pow128, 3);
    if k >= 2 {
        assert(pow128((k - 1) as nat) >= 128) by {
            lemma_pow128_grows(1, (k - 1) as nat);
        }
        assert(pow128(k) == 128 * pow128((k - 1) as nat));
        if k >= 3 {
            assert(pow128((k - 1) as nat) == 128 * pow128((k - 2) as nat));
        }
        lemma_groups_count(v / 128, (k - 1) as nat);
    }
}

proof fn lemma_pow128_grows(a: nat, b: nat)
    requires
        a <= b,
    ensures
        pow128(a) <= pow128(b),
        pow128(a) >= 1,
    decreases b,
{
    if a < b {
        lemma_pow128_grows(a, (b - 1) as nat);
    } else if a > 0 {
        lemma_pow128_grows((a - 1) as nat, (a - 1) as nat);
    }
}

/// A value below 128 to the `k` has at most `k` groups, and at least one.
pub proof fn lemma_groups_len(v: nat, k: nat)
    requires
        k >= 1,
        v < pow128(k),
    ensures
        1 <= groups(v).len() <= k,
    decreases k,
{
    if v >= 128 {
        assert(k >= 2) by {
            reveal_with_fuel(pow128, 2);
        }
        assert(pow128(k) == 128 * pow128((k - 1) as nat));
        lemma_groups_len(v / 128, (k - 1) as nat);
    }
}

/// Reading at the place where the groups of `v` stand gives `v` back.
pub proof fn lemma_parse_groups_of(s: Seq<u8>, pos: int, v: nat, limit: nat)
    requires
        0 <= pos,
        pos + groups(v).len() <= s.len(),
        s.subrange(pos, pos + groups(v).len()) == groups(v),
        limit >= groups(v).len(),
    ensures
        parse_groups(s, pos, limit) == (Parsed::Value { value: v, consumed: groups(v).len() }),
    decreases v,
{
    let g = groups(v);
    assert(s[pos] == g[0]) by {
        assert(s.subrange(pos, pos + g.len())[0] == s[pos]);
    }
    if v >= 128 {
        let tail = groups(v / 128);
        let have = s.subrange(pos + 1, pos + 1 + tail.len());
        assert(have =~= tail) by {
            assert forall|j: int| 0 <= j < tail.len() implies #[trigger] have[j] == tail[j] by {
                assert(s.subrange(pos, pos + g.len())[j + 1] == s[pos + j + 1]);
                assert(g[j + 1] == tail[j]);
            }
        }
        lemma_parse_groups_of(s, pos + 1, v / 128, (limit - 1) as nat);
    }
}

/// Where only a proper prefix of the groups of `v` has arrived, the read is
/// incomplete.
pub proof fn lemma_parse_groups_prefix(s: Seq<u8>, pos: int, v: nat, limit: nat)
    requires
        0 <= pos <= s.len(),
        s.len() < pos + groups(v).len(),
        s.subrange(pos, s.len() as int) == groups(v).take(s.len() - pos),
        limit >= groups(v).len(),
    ensures
        parse_groups(s, pos, limit) == Parsed::Incomplete,
    decreases v,
{
    let g = groups(v);
    if pos < s.len() {
        assert(s[pos] == g[0]) by {
            assert(s.subrange(pos, s.len() as int)[0] == s[pos]);
            assert(g.take(s.len() - pos)[0] == g[0]);
        }
        assert(v >= 128);
        let tail = groups(v / 128);
        let have = s.subrange(pos + 1, s.len() as int);
        let want = tail.take(s.len() - pos - 1);
        assert(have =~= want) by {
            assert forall|j: int| 0 <= j < have.len() implies #[trigger] have[j] == want[j] by {
                assert(s.subrange(pos, s.len() as int)[j + 1] == s[pos + j + 1]);
                assert(g.take(s.len() - pos)[j + 1] == g[j + 1]);
                assert(g[j + 1] == tail[j]);
            }
        }
        lemma_parse_groups_prefix(s, pos + 1, v / 128, (limit - 1) as nat);
    }
}

/// No read that gives `value` takes fewer bytes than the groups of `value`.
pub proof fn lemma_parse_groups_minimal(bytes: Seq<u8>, pos: int, limit: nat)
    requires
        0 <= pos,
    ensures
        parse_groups(bytes, pos, limit) matches Parsed::Value { value, consumed } ==> groups(
            value,
        ).len() <= consumed && pos + consumed <= bytes.len() && consumed <= limit,
    decreases limit,
{
    if limit > 0 && pos < bytes.len() && bytes[pos] >= 128 {
        lemma_parse_groups_minimal(bytes, pos + 1, (limit - 1) as nat);
        if let Parsed::Value { value: v, consumed } = parse_groups(
            bytes,
            pos + 1,
            (limit - 1) as nat,
        ) {
            let value = (bytes[pos] - 128) as nat + 128 * v;
            if value >= 128 {
                assert(value / 128 == v);
            }
        }
    }
}

/// Round trip: the encoding of `x`, whatever stands before and after it,
/// reads back as `x`, and takes exactly the bytes that were written.
pub proof fn lemma_decode_encode(before: Seq<u8>, x: i32, after: Seq<u8>)
    ensures
        spec_decode(before + spec_encode(x) + after, before.len() as int) == (Parsed::Value {
            value: unsigned(x),
            consumed: spec_encode(x).len(),
        }),
        signed(unsigned(x)) == x,
        1 <= spec_encode(x).len() <= 5,
{
    let s = before + spec_encode(x) + after;
    let pos = before.len() as int;
    assert(pow128(5) == 34359738368) by {
        reveal_with_fuel(pow128, 6);
    }
    lemma_groups_len(unsigned(x), 5);
    assert(s.subrange(pos, pos + spec_encode(x).len()) =~= spec_encode(x));
    lemma_parse_groups_of(s, pos, unsigned(x), 5);
}

/// Where a read takes as many bytes as the value has groups, the bytes are
/// the groups of the value.
pub proof fn lemma_parse_groups_exact(bytes: Seq<u8>, pos: int, limit: nat)
    requires
        0 <= pos,
    ensures
        parse_groups(bytes, pos, limit) matches Parsed::Value { value, consumed } ==> (groups(
            value,
        ).len() == consumed ==> bytes.subrange(pos, pos + consumed) == groups(value)),
    decreases limit,
{
    lemma_parse_groups_minimal(bytes, pos, limit);
    if limit > 0 && pos < bytes.len() {
        if bytes[pos] < 128 {
            assert(bytes.subrange(pos, pos + 1) =~= seq![bytes[pos]]);
        } else {
            lemma_parse_groups_exact(bytes, pos + 1, (limit - 1) as nat);
            lemma_parse_groups_minimal(bytes, pos + 1, (limit - 1) as nat);
            if let Parsed::Value { value: v, consumed } = parse_groups(
                bytes,
                pos + 1,
                (limit - 1) as nat,
            ) {
                let value = (bytes[pos] - 128) as nat + 128 * v;
                if groups(value).len() == consumed + 1 {
                    assert(value >= 128);
                    assert(value / 128 == v);
                    assert(value % 128 == bytes[pos] - 128);
                    assert(bytes.subrange(pos, pos + consumed + 1) =~= seq![bytes[pos]]
                        + bytes.subrange(pos + 1, pos + 1 + consumed));
                }
            }
        }
    }
}

/// Minimal length, and more: the only bytes that read as `x` are the
/// encoding of `x`. No value is read from fewer bytes than `encode` writes
/// for it, nor from more.
pub proof fn lemma_encode_minimal(bytes: Seq<u8>, pos: int, x: i32)
    requires
        0 <= pos,
    ensures
        spec_decode(bytes, pos) matches Parsed::Value { value, consumed } ==> (value == unsigned(x)
            ==> consumed == spec_encode(x).len() && bytes.subrange(pos, pos + consumed)
            == spec_encode(x)),
{
    lemma_parse_groups_exact(bytes, pos, 5);
}

/// A proper prefix of an encoding is never taken for a value or refused:
/// the reader asks for more bytes.
pub proof fn lemma_prefix_incomplete(before: Seq<u8>, x: i32, k: int)
    requires
        0 <= k < spec_encode(x).len(),
    ensures
        spec_decode(before + spec_encode(x).take(k), before.len() as int) == Parsed::Incomplete,
{
    let s = before + spec_encode(x).take(k);
    let pos = before.len() as int;
    assert(pow128(5) == 34359738368) by {
        reveal_with_fuel(pow128, 6);
    }
    lemma_groups_len(unsigned(x), 5);
    assert(s.subrange(pos, s.len() as int) =~= spec_encode(x).take(s.len() - pos));
    lemma_parse_groups_prefix(s, pos, unsigned(x), 5);
}

} // verus!
