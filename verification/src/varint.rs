//! Unsigned LEB128 numbers, as they prefix every section of an archive and
//! make up the fields of a CID.

use vstd::prelude::*;

verus! {

/// Most bytes that one number may take on the wire.
pub const MAX_VARINT_LEN: usize = 9;

/// What a position in a byte sequence holds when read as a number.
pub enum VarintParse {
    /// A complete number and the count of bytes that encode it.
    Value { value: nat, len: nat },
    /// The input ends before the last byte of the number.
    Truncated,
    /// The number runs on past the longest accepted encoding.
    Overflow,
}

/// Outcome of reading a number from a buffer.
#[derive(Clone, Copy, Debug, PartialEq, Eq)]
pub enum VarintRead {
    Value { value: u64, len: usize },
    Truncated,
    Overflow,
}

/// 128 to the power `n`.
pub open spec fn pow128(n: nat) -> nat
    decreases n,
{
    if n == 0 {
        1
    } else {
        128 * pow128((n - 1) as nat)
    }
}

/// Reads a number at `pos`, looking at no more than `budget` bytes. Each byte
/// gives its low seven bits, least significant group first; a byte below 0x80
/// is the last one.
pub open spec fn parse_varint_bounded(s: Seq<u8>, pos: int, budget: nat) -> VarintParse
    decreases budget,
{
    if budget == 0 {
        VarintParse::Overflow
    } else if pos < 0 || pos >= s.len() {
        VarintParse::Truncated
    } else if s[pos] < 0x80 {
        VarintParse::Value { value: s[pos] as nat, len: 1 }
    } else {
        prepend_group(
            (s[pos] - 0x80) as nat,
            128,
            1,
            parse_varint_bounded(s, pos + 1, (budget - 1) as nat),
        )
    }
}

/// The number at `pos`, at most `MAX_VARINT_LEN` bytes long.
pub open spec fn parse_varint(s: Seq<u8>, pos: int) -> VarintParse {
    parse_varint_bounded(s, pos, MAX_VARINT_LEN as nat)
}

/// Puts `count` bytes worth `low` in front of a number whose groups then
/// weigh `scale` times as much.
pub open spec fn prepend_group(low: nat, scale: nat, count: nat, rest: VarintParse) -> VarintParse {
    match rest {
        VarintParse::Value { value, len } => VarintParse::Value {
            value: low + scale * value,
            len: count + len,
        },
        other => other,
    }
}

/// The shortest encoding of `v`.
pub open spec fn encode_varint(v: nat) -> Seq<u8>
    decreases v,
{
    if v < 0x80 {
        seq![v as u8]
    } else {
        seq![((v % 0x80) + 0x80) as u8] + encode_varint(v / 0x80)
    }
}

/// The powers of 128 that a number of up to nine bytes can reach.
pub proof fn lemma_pow128_values()
    ensures
        pow128(0) == 1,
        pow128(1) == 0x80,
        pow128(2) == 0x4000,
        pow128(3) == 0x20_0000,
        pow128(4) == 0x1000_0000,
        pow128(5) == 0x8_0000_0000,
        pow128(6) == 0x400_0000_0000,
        pow128(7) == 0x2_0000_0000_0000,
        pow128(8) == 0x100_0000_0000_0000,
        pow128(9) == 0x8000_0000_0000_0000,
{
    reveal_with_fuel(pow128, 10);
}

/// A number read within `budget` bytes is below 128 to the `budget` and takes
/// between one and `budget` bytes.
pub proof fn lemma_parse_varint_bounds(s: Seq<u8>, pos: int, budget: nat)
    ensures
        parse_varint_bounded(s, pos, budget) matches VarintParse::Value { value, len } ==> 1 <= len
            <= budget && value < pow128(len) && pos + len <= s.len() && 0 <= pos,
    decreases budget,
{
    lemma_pow128_values();
    if budget > 0 && 0 <= pos < s.len() && s[pos] >= 0x80 {
        lemma_parse_varint_bounds(s, pos + 1, (budget - 1) as nat);
        match parse_varint_bounded(s, pos + 1, (budget - 1) as nat) {
            VarintParse::Value { value, len } => {
                assert(pow128(1 + len) == 128 * pow128(len));
                assert((s[pos] - 0x80) + 128 * value < 128 * pow128(len)) by (nonlinear_arith)
                    requires
                        value < pow128(len),
                        s[pos] - 0x80 < 128,
                ;
            },
            _ => {},
        }
    }
}

/// Reading at `pos` after dropping the first `k` bytes is reading at
/// `pos + k` in the whole input.
pub proof fn lemma_parse_varint_skip(s: Seq<u8>, k: int, pos: int, budget: nat)
    requires
        0 <= k <= s.len(),
        0 <= pos,
    ensures
        parse_varint_bounded(s.skip(k), pos, budget) == parse_varint_bounded(s, k + pos, budget),
    decreases budget,
{
    if budget > 0 && pos < s.skip(k).len() {
        assert(s.skip(k)[pos] == s[k + pos]);
        if s[k + pos] >= 0x80 {
            lemma_parse_varint_skip(s, k, pos + 1, (budget - 1) as nat);
        }
    }
}

/// A number that ends within the first `n` bytes is read the same from those
/// bytes alone.
pub proof fn lemma_parse_varint_take(s: Seq<u8>, pos: int, n: int, budget: nat)
    requires
        0 <= n <= s.len(),
        parse_varint_bounded(s, pos, budget) matches VarintParse::Value { value, len } && pos + len
            <= n,
    ensures
        parse_varint_bounded(s.take(n), pos, budget) == parse_varint_bounded(s, pos, budget),
    decreases budget,
{
    lemma_parse_varint_bounds(s, pos, budget);
    if budget > 0 && 0 <= pos < s.len() && s[pos] >= 0x80 {
        lemma_parse_varint_bounds(s, pos + 1, (budget - 1) as nat);
        lemma_parse_varint_take(s, pos + 1, n, (budget - 1) as nat);
    }
}

/// A number that is complete, or too long, stays what it is when more input
/// follows.
pub proof fn lemma_parse_varint_extend(s: Seq<u8>, pos: int, more: Seq<u8>, budget: nat)
    requires
        !(parse_varint_bounded(s, pos, budget) is Truncated),
    ensures
        parse_varint_bounded(s + more, pos, budget) == parse_varint_bounded(s, pos, budget),
    decreases budget,
{
    if budget > 0 && 0 <= pos < s.len() && s[pos] >= 0x80 {
        lemma_parse_varint_extend(s, pos + 1, more, (budget - 1) as nat);
    }
}

/// Reading back the shortest encoding of a number gives the number, whatever
/// stands before and after it.
pub proof fn lemma_varint_roundtrip(v: nat, before: Seq<u8>, after: Seq<u8>, budget: nat)
    requires
        1 <= budget,
        v < pow128(budget),
    ensures
        parse_varint_bounded(before + encode_varint(v) + after, before.len() as int, budget) == (
        VarintParse::Value { value: v, len: encode_varint(v).len() }),
        1 <= encode_varint(v).len() <= budget,
    decreases budget,
{
    let s = before + encode_varint(v) + after;
    let p = before.len() as int;
    lemma_pow128_values();
    if v < 0x80 {
        assert(s[p] == encode_varint(v)[0]);
    } else {
        assert(budget >= 2);
        let head = seq![((v % 0x80) + 0x80) as u8];
        let rest = encode_varint(v / 0x80);
        assert(encode_varint(v) == head + rest);
        assert(s[p] == head[0]);
        assert(v / 0x80 < pow128((budget - 1) as nat)) by (nonlinear_arith)
            requires
                v < 128 * pow128((budget - 1) as nat),
        ;
        lemma_varint_roundtrip(v / 0x80, before + head, after, (budget - 1) as nat);
        assert(before + head + rest + after =~= s);
        assert(v == (v % 0x80) + 128 * (v / 0x80)) by (nonlinear_arith);
    }
}

/// Reads the number that starts at `pos`.
pub fn read_varint(buf: &[u8], pos: usize) -> (r: VarintRead)
    ensures
        match parse_varint(buf@, pos as int) {
            VarintParse::Value { value, len } => r == (VarintRead::Value {
                value: value as u64,
                len: len as usize,
            }) && value <= u64::MAX && pos + len <= buf.len(),
            VarintParse::Truncated => r == VarintRead::Truncated,
            VarintParse::Overflow => r == VarintRead::Overflow,
        },
{
    let mut acc: u64 = 0;
    let mut scale: u64 = 1;
    let mut i: usize = 0;
    proof {
        lemma_pow128_values();
    }
    while i < MAX_VARINT_LEN
        invariant
            i <= MAX_VARINT_LEN,
            i > 0 ==> pos + i <= buf.len(),
            scale == pow128(i as nat),
            acc < scale,
            parse_varint(buf@, pos as int) == prepend_group(
                acc as nat,
                scale as nat,
                i as nat,
                parse_varint_bounded(buf@, pos + i, (MAX_VARINT_LEN - i) as nat),
            ),
        decreases MAX_VARINT_LEN - i,
    {
        proof {
            lemma_pow128_values();
            reveal_with_fuel(pow128, 2);
        }
        if pos >= buf.len() || i >= buf.len() - pos {
            return VarintRead::Truncated;
        }
        let byte: u8 = buf[pos + i];
        let ghost rest = parse_varint_bounded(buf@, pos + i + 1, (MAX_VARINT_LEN - i - 1) as nat);
        assert(scale <= 0x100_0000_0000_0000) by {
            lemma_pow128_monotonic(i as nat, 8);
        }
        if byte < 0x80 {
            assert(scale * byte <= 0x100_0000_0000_0000 * 127) by (nonlinear_arith)
                requires
                    scale <= 0x100_0000_0000_0000,
                    byte < 0x80,
            ;
            let value: u64 = acc + scale * (byte as u64);
            return VarintRead::Value { value, len: i + 1 };
        }
        let low: u64 = (byte - 0x80) as u64;
        assert(scale * low <= 0x100_0000_0000_0000 * 127 && scale * low + scale <= scale * 128)
            by (nonlinear_arith)
            requires
                scale <= 0x100_0000_0000_0000,
                low < 0x80,
        ;
        proof {
            match rest {
                VarintParse::Value { value, len } => {
                    assert(acc + scale * (low + 128 * value) == (acc + scale * low) + (scale * 128)
                        * value) by (nonlinear_arith);
                },
                _ => {},
            }
        }
        acc = acc + scale * low;
        scale = scale * 128;
        i = i + 1;
    }
    VarintRead::Overflow
}

/// Powers of 128 grow with the exponent.
pub proof fn lemma_pow128_monotonic(a: nat, b: nat)
    requires
        a <= b,
    ensures
        pow128(a) <= pow128(b),
        pow128(a) >= 1,
    decreases b,
{
    if a < b {
        lemma_pow128_monotonic(a, (b - 1) as nat);
    } else if a > 0 {
        lemma_pow128_monotonic((a - 1) as nat, (a - 1) as nat);
    }
}

} // verus!
