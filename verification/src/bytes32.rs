//! Big-endian numbers and 32-byte values.

use vstd::arithmetic::power::pow;
use vstd::prelude::*;

verus! {

/// The last `width` base-256 digits of `value`, most significant first.
pub open spec fn be_bytes(value: nat, width: nat) -> Seq<u8>
    decreases width,
{
    if width == 0 {
        Seq::empty()
    } else {
        be_bytes(value / 256, (width - 1) as nat).push((value % 256) as u8)
    }
}

/// The number that `bytes` spell in base 256, most significant first.
pub open spec fn be_value(bytes: Seq<u8>) -> nat
    decreases bytes.len(),
{
    if bytes.len() == 0 {
        0
    } else {
        be_value(bytes.drop_last()) * 256 + bytes.last() as nat
    }
}

/// Appends `value` to `out` as a big-endian number of `width` bytes.
pub fn push_be(out: &mut Vec<u8>, value: u128, width: usize)
    ensures
        final(out)@ == old(out)@ + be_bytes(value as nat, width as nat),
    decreases width,
{
    if width > 0 {
        push_be(out, value / 256, width - 1);
        out.push((value % 256) as u8);
    }
    assert(out@ =~= old(out)@ + be_bytes(value as nat, width as nat));
}

/// A big-endian number has as many bytes as its width says.
pub proof fn lemma_be_bytes_len(value: nat, width: nat)
    ensures
        be_bytes(value, width).len() == width,
    decreases width,
{
    if width > 0 {
        lemma_be_bytes_len(value / 256, (width - 1) as nat);
    }
}

/// Each byte of a big-endian number is the base-256 digit of its place, counted from the end.
pub proof fn law_bytes_are_digits(value: nat, width: nat, i: int)
    requires
        0 <= i < width,
    ensures
        be_bytes(value, width).len() == width,
        be_bytes(value, width)[i] == (value as int / pow(256, (width - 1 - i) as nat)) % 256,
    decreases width,
{
    lemma_be_bytes_len(value, width);
    lemma_be_bytes_len(value / 256, (width - 1) as nat);
    if i == width - 1 {
        vstd::arithmetic::power::lemma_pow0(256);
    } else {
        let rest = (width - 2 - i) as nat;
        law_bytes_are_digits(value / 256, (width - 1) as nat, i);
        assert(pow(256, (width - 1 - i) as nat) == 256 * pow(256, rest)) by {
            reveal(pow);
        }
        vstd::arithmetic::power::lemma_pow_positive(256, rest);
        vstd::arithmetic::div_mod::lemma_div_denominator(value as int, 256, pow(256, rest));
    }
}

/// No bytes spell zero, and one more byte is one more base-256 digit.
pub proof fn law_bytes_spell_digits(bytes: Seq<u8>, byte: u8)
    ensures
        be_value(Seq::<u8>::empty()) == 0,
        be_value(bytes.push(byte)) == 256 * be_value(bytes) + byte,
{
    assert(bytes.push(byte).drop_last() =~= bytes);
}

/// A 32-byte value is the numbers that its two halves spell.
pub proof fn law_halves(bytes: Seq<u8>)
    requires
        bytes.len() == 32,
    ensures
        bytes32(bytes).hi == be_value(bytes.subrange(0, 16)),
        bytes32(bytes).lo == be_value(bytes.subrange(16, 32)),
{
    assert(pow(256, 16) == u128::MAX + 1) by {
        reveal_with_fuel(pow, 17);
    }
    lemma_be_value_bound(bytes.subrange(0, 16));
    lemma_be_value_bound(bytes.subrange(16, 32));
}

/// Reading back a big-endian number gives the number that was written, if it fits the width.
pub proof fn lemma_be_round_trip(value: nat, width: nat)
    requires
        value < pow(256, width),
    ensures
        be_value(be_bytes(value, width)) == value,
    decreases width,
{
    vstd::arithmetic::power::lemma_pow0(256);
    if width > 0 {
        let rest = (width - 1) as nat;
        assert(pow(256, width) == 256 * pow(256, rest)) by {
            reveal(pow);
        }
        assert(value / 256 < pow(256, rest)) by (nonlinear_arith)
            requires
                value < 256 * pow(256, rest),
        ;
        lemma_be_round_trip(value / 256, rest);
        let all = be_bytes(value, width);
        assert(all.drop_last() =~= be_bytes(value / 256, rest));
    }
}

/// Two byte strings of one length that spell the same number are the same.
pub proof fn lemma_be_value_injective(a: Seq<u8>, b: Seq<u8>)
    requires
        a.len() == b.len(),
        be_value(a) == be_value(b),
    ensures
        a == b,
    decreases a.len(),
{
    if a.len() > 0 {
        lemma_be_value_injective(a.drop_last(), b.drop_last());
        assert(a =~= a.drop_last().push(a.last()));
        assert(b =~= b.drop_last().push(b.last()));
    } else {
        assert(a =~= b);
    }
}

/// A byte string spells a number below the power of 256 that its length gives.
proof fn lemma_be_value_bound(bytes: Seq<u8>)
    ensures
        be_value(bytes) < pow(256, bytes.len()),
    decreases bytes.len(),
{
    vstd::arithmetic::power::lemma_pow0(256);
    if bytes.len() > 0 {
        let rest = (bytes.len() - 1) as nat;
        lemma_be_value_bound(bytes.drop_last());
        assert(pow(256, bytes.len()) == 256 * pow(256, rest)) by {
            reveal(pow);
        }
    }
}

/// A 32-byte value, such as a public key, a hash or the identifier of an account, held as its
/// two 16-byte halves.
#[derive(Clone, Copy, Debug, PartialEq, Eq, Structural)]
pub struct Bytes32 {
    /// The first sixteen bytes, most significant first.
    pub hi: u128,
    /// The last sixteen bytes, most significant first.
    pub lo: u128,
}

/// The 32-byte value that `bytes` holds.
pub open spec fn bytes32(bytes: Seq<u8>) -> Bytes32 {
    Bytes32 {
        hi: be_value(bytes.subrange(0, 16)) as u128,
        lo: be_value(bytes.subrange(16, 32)) as u128,
    }
}

/// Reads the sixteen bytes from `start` on as one number.
fn word_at(bytes: &[u8; 32], start: usize) -> (r: u128)
    requires
        start <= 16,
    ensures
        r == be_value(bytes@.subrange(start as int, start + 16)),
{
    let mut word: u128 = 0;
    let mut k: usize = 0;
    while k < 16
        invariant
            k <= 16,
            start <= 16,
            word == be_value(bytes@.subrange(start as int, start + k)),
        decreases 16 - k,
    {
        proof {
            let part = bytes@.subrange(start as int, start + k + 1);
            assert(part.drop_last() =~= bytes@.subrange(start as int, start + k));
            assert(part.last() == bytes@[start + k]);
            lemma_be_value_bound(part);
            assert(pow(256, part.len()) <= pow(256, 16)) by {
                vstd::arithmetic::power::lemma_pow_increases(256, part.len(), 16);
            }
            assert(pow(256, 16) == u128::MAX + 1) by {
                reveal_with_fuel(pow, 17);
            }
        }
        word = word * 256 + bytes[start + k] as u128;
        k += 1;
    }
    word
}

impl Bytes32 {
    /// The value that an array of bytes holds.
    pub fn from_array(bytes: &[u8; 32]) -> (r: Bytes32)
        ensures
            r == bytes32(bytes@),
    {
        Bytes32 { hi: word_at(bytes, 0), lo: word_at(bytes, 16) }
    }
}

/// Different arrays are different values.
pub proof fn lemma_bytes32_injective(a: Seq<u8>, b: Seq<u8>)
    requires
        a.len() == 32,
        b.len() == 32,
        bytes32(a) == bytes32(b),
    ensures
        a == b,
{
    assert(pow(256, 16) == u128::MAX + 1) by {
        reveal_with_fuel(pow, 17);
    }
    lemma_be_value_bound(a.subrange(0, 16));
    lemma_be_value_bound(a.subrange(16, 32));
    lemma_be_value_bound(b.subrange(0, 16));
    lemma_be_value_bound(b.subrange(16, 32));
    lemma_be_value_injective(a.subrange(0, 16), b.subrange(0, 16));
    lemma_be_value_injective(a.subrange(16, 32), b.subrange(16, 32));
    assert(a =~= a.subrange(0, 16) + a.subrange(16, 32));
    assert(b =~= b.subrange(0, 16) + b.subrange(16, 32));
}

} // verus!
