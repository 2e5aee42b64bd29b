//! The message that an oracle signs.

use vstd::prelude::*;
use crate::bytes32::{be_bytes, be_value, lemma_be_bytes_len, lemma_be_round_trip, push_be};
use crate::outcome_manager::types::Outcome;

verus! {

/// The two's complement of a price, as an unsigned number.
pub open spec fn unsigned(price: i128) -> nat {
    if price >= 0 {
        price as nat
    } else {
        (price + u128::MAX + 1) as nat
    }
}

/// The canonical message of a report: the call number, the outcome, the price and the time, each
/// big-endian and of fixed width.
pub open spec fn canonical_message(report: Outcome) -> Seq<u8> {
    be_bytes(report.call_id as nat, 8) + be_bytes(report.outcome as nat, 4) + be_bytes(
        unsigned(report.price),
        16,
    ) + be_bytes(report.timestamp as nat, 8)
}

/// Builds the canonical message of a report.
pub fn build_message(call_id: u64, outcome: u32, price: i128, timestamp: u64) -> (r: Vec<u8>)
    ensures
        r@ == canonical_message(Outcome { call_id, outcome, price, timestamp }),
        r@.len() == 36,
{
    let price_bits: u128 = if price >= 0 {
        price as u128
    } else {
        u128::MAX - ((-(price + 1)) as u128)
    };
    let mut message: Vec<u8> = Vec::new();
    push_be(&mut message, call_id as u128, 8);
    push_be(&mut message, outcome as u128, 4);
    push_be(&mut message, price_bits, 16);
    push_be(&mut message, timestamp as u128, 8);
    proof {
        lemma_be_bytes_len(call_id as nat, 8);
        lemma_be_bytes_len(outcome as nat, 4);
        lemma_be_bytes_len(unsigned(price), 16);
        lemma_be_bytes_len(timestamp as nat, 8);
    }
    message
}

/// Two reports have the same canonical message only if they are the same report.
pub proof fn lemma_message_injective(a: Outcome, b: Outcome)
    requires
        canonical_message(a) == canonical_message(b),
    ensures
        a == b,
{
    lemma_message_parts(a);
    lemma_message_parts(b);
}

/// A price is spelled as itself, and a negative one as 2^128 more.
pub proof fn law_unsigned_price(price: i128)
    ensures
        price >= 0 ==> unsigned(price) == price,
        price < 0 ==> unsigned(price) == price + 0x1_0000_0000_0000_0000_0000_0000_0000_0000int,
{
}

/// The canonical message has 36 bytes, of which eight spell the call, four the outcome, sixteen
/// the price and eight the time.
pub proof fn law_message_layout(report: Outcome)
    ensures
        canonical_message(report).len() == 36,
        be_value(canonical_message(report).subrange(0, 8)) == report.call_id,
        be_value(canonical_message(report).subrange(8, 12)) == report.outcome,
        be_value(canonical_message(report).subrange(12, 28)) == unsigned(report.price),
        be_value(canonical_message(report).subrange(28, 36)) == report.timestamp,
{
    lemma_message_parts(report);
    lemma_be_bytes_len(report.call_id as nat, 8);
    lemma_be_bytes_len(report.outcome as nat, 4);
    lemma_be_bytes_len(unsigned(report.price), 16);
    lemma_be_bytes_len(report.timestamp as nat, 8);
}

/// Each field of a report can be read back from its canonical message.
proof fn lemma_message_parts(report: Outcome)
    ensures
        be_value(canonical_message(report).subrange(0, 8)) == report.call_id,
        be_value(canonical_message(report).subrange(8, 12)) == report.outcome,
        be_value(canonical_message(report).subrange(12, 28)) == unsigned(report.price),
        be_value(canonical_message(report).subrange(28, 36)) == report.timestamp,
{
    use_widths();
    let message = canonical_message(report);
    lemma_be_bytes_len(report.call_id as nat, 8);
    lemma_be_bytes_len(report.outcome as nat, 4);
    lemma_be_bytes_len(unsigned(report.price), 16);
    lemma_be_bytes_len(report.timestamp as nat, 8);
    assert(message.subrange(0, 8) =~= be_bytes(report.call_id as nat, 8));
    assert(message.subrange(8, 12) =~= be_bytes(report.outcome as nat, 4));
    assert(message.subrange(12, 28) =~= be_bytes(unsigned(report.price), 16));
    assert(message.subrange(28, 36) =~= be_bytes(report.timestamp as nat, 8));
    lemma_be_round_trip(report.call_id as nat, 8);
    lemma_be_round_trip(report.outcome as nat, 4);
    lemma_be_round_trip(unsigned(report.price), 16);
    lemma_be_round_trip(report.timestamp as nat, 8);
}

/// How many numbers fit the widths of the message's fields.
proof fn use_widths()
    ensures
        vstd::arithmetic::power::pow(256, 4) == u32::MAX + 1,
        vstd::arithmetic::power::pow(256, 8) == u64::MAX + 1,
        vstd::arithmetic::power::pow(256, 16) == u128::MAX + 1,
{
    reveal_with_fuel(vstd::arithmetic::power::pow, 17);
}

} // verus!
