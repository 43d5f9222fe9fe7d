//! nftables integration: desired-rule generation and the reconciliation plan
//! that decides which kernel rules to add, keep and delete.

pub mod plan;
pub mod ruleset;
pub mod shape;

use vstd::prelude::*;
use vstd::utf8::encode_utf8;

pub use ruleset::{desired_rules, render_ruleset, RuleKind};

verus! {

pub const FNV_OFFSET: u64 = 0xcbf2_9ce4_8422_2325;

pub const FNV_PRIME: u64 = 0x0000_0100_0000_01b3;

/// FNV-1a (64-bit) of a byte sequence.
pub open spec fn spec_fnv1a(bytes: Seq<u8>) -> u64
    decreases bytes.len(),
{
    if bytes.len() == 0 {
        FNV_OFFSET
    } else {
        (spec_fnv1a(bytes.drop_last()) ^ (bytes.last() as u64)).wrapping_mul(FNV_PRIME)
    }
}

/// FNV-1a (64-bit) of the UTF-8 bytes of `s`, used for the content hash
/// embedded in rule comments. The same value in every process and on every
/// machine.
pub fn fnv1a(s: &str) -> (h: u64)
    ensures
        h == spec_fnv1a(encode_utf8(s@)),
{
    let bytes = s.as_bytes();
    let mut h: u64 = FNV_OFFSET;
    let mut i: usize = 0;
    while i < bytes.len()
        invariant
            i <= bytes@.len(),
            bytes@ == encode_utf8(s@),
            h == spec_fnv1a(bytes@.take(i as int)),
        decreases bytes.len() - i,
    {
        assert(bytes@.take(i as int + 1).drop_last() == bytes@.take(i as int));
        h = (h ^ (bytes[i] as u64)).wrapping_mul(FNV_PRIME);
        i = i + 1;
    }
    assert(bytes@.take(bytes@.len() as int) == bytes@);
    h
}

/// A rule observed on the kernel that carries our identity comment.
#[derive(Debug, Clone)]
pub struct ObservedRule {
    pub mapping_id: String,
    pub kind: RuleKind,
}

/// Outcome of an `apply`: how many rules were added, deleted, or left untouched
/// (untouched rules keep their traffic counters).
#[derive(Debug, Default, Clone, Copy)]
pub struct ApplyReport {
    pub added: usize,
    pub deleted: usize,
    pub kept: usize,
}

} // verus!
