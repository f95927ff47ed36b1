//! Wire form of a participant's answer.
//!
//! An answer is a tag byte followed by the fields of its variant: tag 0 is
//! `BuyAcceleration`, tag 1 is `BuyShell`, each followed by its amount as four
//! little-endian bytes, and tag 2 is `Skip`, with no field. Bytes after the
//! variant are not read.
use vstd::prelude::*;
use crate::types::StrategyAction;

verus! {

/// The unsigned integer that four little-endian bytes spell.
pub open spec fn le_u32(b0: u8, b1: u8, b2: u8, b3: u8) -> int {
    b0 as int + 256 * (b1 as int) + 65536 * (b2 as int) + 16777216 * (b3 as int)
}

/// The answer that `bytes` encodes, or `None` when it encodes none.
pub open spec fn decoded(bytes: Seq<u8>) -> Option<StrategyAction> {
    if bytes.len() >= 1 && bytes[0] == 2 {
        Some(StrategyAction::Skip)
    } else if bytes.len() >= 5 && (bytes[0] == 0 || bytes[0] == 1) {
        let amount = le_u32(bytes[1], bytes[2], bytes[3], bytes[4]) as u32;
        if bytes[0] == 0 {
            Some(StrategyAction::BuyAcceleration { amount })
        } else {
            Some(StrategyAction::BuyShell { amount })
        }
    } else {
        None
    }
}

/// The bytes that encode `action`.
pub open spec fn encoded(action: StrategyAction) -> Seq<u8> {
    match action {
        StrategyAction::BuyAcceleration { amount } => seq![0u8].add(le_bytes(amount)),
        StrategyAction::BuyShell { amount } => seq![1u8].add(le_bytes(amount)),
        StrategyAction::Skip => seq![2u8],
    }
}

pub open spec fn le_bytes(v: u32) -> Seq<u8> {
    seq![
        (v % 256) as u8,
        ((v / 256) % 256) as u8,
        ((v / 65536) % 256) as u8,
        (v / 16777216) as u8,
    ]
}

fn read_u32_le(b0: u8, b1: u8, b2: u8, b3: u8) -> (r: u32)
    ensures
        r as int == le_u32(b0, b1, b2, b3),
{
    b0 as u32 + 256 * (b1 as u32) + 65536 * (b2 as u32) + 16777216 * (b3 as u32)
}

/// Reads a participant's answer from `bytes`.
pub fn decode_strategy(bytes: &[u8]) -> (r: Option<StrategyAction>)
    ensures
        r == decoded(bytes@),
{
    if bytes.len() >= 1 && bytes[0] == 2 {
        Some(StrategyAction::Skip)
    } else if bytes.len() >= 5 && (bytes[0] == 0 || bytes[0] == 1) {
        let amount = read_u32_le(bytes[1], bytes[2], bytes[3], bytes[4]);
        if bytes[0] == 0 {
            Some(StrategyAction::BuyAcceleration { amount })
        } else {
            Some(StrategyAction::BuyShell { amount })
        }
    } else {
        None
    }
}

/// Writes a participant's answer as bytes.
pub fn encode_strategy(action: StrategyAction) -> (r: Vec<u8>)
    ensures
        r@ == encoded(action),
{
    let mut out: Vec<u8> = Vec::new();
    match action {
        StrategyAction::BuyAcceleration { amount } => {
            out.push(0u8);
            push_u32_le(&mut out, amount);
        },
        StrategyAction::BuyShell { amount } => {
            out.push(1u8);
            push_u32_le(&mut out, amount);
        },
        StrategyAction::Skip => {
            out.push(2u8);
        },
    }
    out
}

fn push_u32_le(out: &mut Vec<u8>, v: u32)
    ensures
        final(out)@ == old(out)@.add(le_bytes(v)),
{
    out.push((v % 256) as u8);
    out.push(((v / 256) % 256) as u8);
    out.push(((v / 65536) % 256) as u8);
    out.push((v / 16777216) as u8);
    assert(final(out)@ =~= old(out)@.add(le_bytes(v)));
}

/// Every answer reads back from its bytes.
pub proof fn lemma_decode_encoded(action: StrategyAction)
    ensures
        decoded(encoded(action)) == Some(action),
{
    let b = encoded(action);
    match action {
        StrategyAction::BuyAcceleration { amount } => {
            lemma_le_round_trip(amount);
        },
        StrategyAction::BuyShell { amount } => {
            lemma_le_round_trip(amount);
        },
        StrategyAction::Skip => {},
    }
}

proof fn lemma_le_round_trip(v: u32)
    ensures
        le_u32(le_bytes(v)[0], le_bytes(v)[1], le_bytes(v)[2], le_bytes(v)[3]) == v as int,
{
    let x = v as int;
    assert(x == x % 256 + 256 * ((x / 256) % 256) + 65536 * ((x / 65536) % 256) + 16777216 * (x / 16777216)) by (nonlinear_arith)
        requires 0 <= x < 4294967296;
}

} // verus!
