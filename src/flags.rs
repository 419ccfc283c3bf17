//! The categories of lifetime bypass that an unsafe dataflow report carries,
//! as a bitset.
use vstd::prelude::*;

use crate::graph::GraphTaint;
use crate::report::ReportLevel;

verus! {

pub const READ_FLOW: u16 = 0b1;
pub const COPY_FLOW: u16 = 0b10;
pub const VEC_FROM_RAW: u16 = 0b100;
pub const TRANSMUTE: u16 = 0b1000;
pub const WRITE_FLOW: u16 = 0b10000;
pub const PTR_AS_REF: u16 = 0b100000;
pub const SLICE_UNCHECKED: u16 = 0b1000000;
pub const SLICE_FROM_RAW: u16 = 0b10000000;
pub const VEC_SET_LEN: u16 = 0b100000000;

/// Flags of the high tier: fabricating a vector or overriding its length.
pub const HIGH_FLAGS: u16 = 0b100000100;

/// Flags of the medium tier: the read, copy and write families.
pub const MEDIUM_FLAGS: u16 = 0b10011;

/// Bit `i` of `x`.
pub open spec fn bit(x: u16, i: u16) -> bool {
    (x >> i) & 1u16 == 1u16
}

/// The bit positions set in `x`.
pub open spec fn bit_set(x: u16) -> Set<nat> {
    Set::new(|i: nat| i < 16 && bit(x, i as u16))
}

proof fn lemma_bit_or(a: u16, b: u16, i: u16)
    requires
        i < 16,
    ensures
        bit(a | b, i) == (bit(a, i) || bit(b, i)),
{
    assert(((a | b) >> i) & 1u16 == 1u16 <==> ((a >> i) & 1u16 == 1u16 || (b >> i) & 1u16 == 1u16))
        by (bit_vector)
        requires
            i < 16,
    ;
}

proof fn lemma_bit_and(a: u16, b: u16, i: u16)
    requires
        i < 16,
    ensures
        bit(a & b, i) == (bit(a, i) && bit(b, i)),
{
    assert(((a & b) >> i) & 1u16 == 1u16 <==> ((a >> i) & 1u16 == 1u16 && (b >> i) & 1u16 == 1u16))
        by (bit_vector)
        requires
            i < 16,
    ;
}

proof fn lemma_bit_zero(i: u16)
    ensures
        !bit(0, i),
{
    assert((0u16 >> i) & 1u16 != 1u16) by (bit_vector);
}

/// Two values with the same bits are equal.
proof fn lemma_bits_ext(a: u16, b: u16)
    requires
        forall|i: u16| i < 16 ==> #[trigger] bit(a, i) == bit(b, i),
    ensures
        a == b,
{
    assert(bit(a, 0) == bit(b, 0));
    assert(bit(a, 1) == bit(b, 1));
    assert(bit(a, 2) == bit(b, 2));
    assert(bit(a, 3) == bit(b, 3));
    assert(bit(a, 4) == bit(b, 4));
    assert(bit(a, 5) == bit(b, 5));
    assert(bit(a, 6) == bit(b, 6));
    assert(bit(a, 7) == bit(b, 7));
    assert(bit(a, 8) == bit(b, 8));
    assert(bit(a, 9) == bit(b, 9));
    assert(bit(a, 10) == bit(b, 10));
    assert(bit(a, 11) == bit(b, 11));
    assert(bit(a, 12) == bit(b, 12));
    assert(bit(a, 13) == bit(b, 13));
    assert(bit(a, 14) == bit(b, 14));
    assert(bit(a, 15) == bit(b, 15));
    assert(a == b) by (bit_vector)
        requires
            (a >> 0u16) & 1u16 == 1u16 <==> (b >> 0u16) & 1u16 == 1u16,
            (a >> 1u16) & 1u16 == 1u16 <==> (b >> 1u16) & 1u16 == 1u16,
            (a >> 2u16) & 1u16 == 1u16 <==> (b >> 2u16) & 1u16 == 1u16,
            (a >> 3u16) & 1u16 == 1u16 <==> (b >> 3u16) & 1u16 == 1u16,
            (a >> 4u16) & 1u16 == 1u16 <==> (b >> 4u16) & 1u16 == 1u16,
            (a >> 5u16) & 1u16 == 1u16 <==> (b >> 5u16) & 1u16 == 1u16,
            (a >> 6u16) & 1u16 == 1u16 <==> (b >> 6u16) & 1u16 == 1u16,
            (a >> 7u16) & 1u16 == 1u16 <==> (b >> 7u16) & 1u16 == 1u16,
            (a >> 8u16) & 1u16 == 1u16 <==> (b >> 8u16) & 1u16 == 1u16,
            (a >> 9u16) & 1u16 == 1u16 <==> (b >> 9u16) & 1u16 == 1u16,
            (a >> 10u16) & 1u16 == 1u16 <==> (b >> 10u16) & 1u16 == 1u16,
            (a >> 11u16) & 1u16 == 1u16 <==> (b >> 11u16) & 1u16 == 1u16,
            (a >> 12u16) & 1u16 == 1u16 <==> (b >> 12u16) & 1u16 == 1u16,
            (a >> 13u16) & 1u16 == 1u16 <==> (b >> 13u16) & 1u16 == 1u16,
            (a >> 14u16) & 1u16 == 1u16 <==> (b >> 14u16) & 1u16 == 1u16,
            (a >> 15u16) & 1u16 == 1u16 <==> (b >> 15u16) & 1u16 == 1u16,
    ;
}

/// The bit positions of `a | b` are those of `a` and those of `b`.
pub proof fn lemma_bit_set_or(a: u16, b: u16)
    ensures
        bit_set(a | b) == bit_set(a).union(bit_set(b)),
{
    assert forall|i: nat| bit_set(a | b).contains(i) <==> bit_set(a).union(bit_set(b)).contains(i) by {
        if i < 16 {
            lemma_bit_or(a, b, i as u16);
        }
    }
    assert(bit_set(a | b) =~= bit_set(a).union(bit_set(b)));
}

/// `a & m` is zero exactly when `a` shares no bit position with `m`.
proof fn lemma_and_zero(a: u16, m: u16)
    ensures
        (a & m == 0) == (bit_set(a).intersect(bit_set(m)) == Set::<nat>::empty()),
{
    if a & m == 0 {
        assert forall|i: nat| !bit_set(a).intersect(bit_set(m)).contains(i) by {
            if i < 16 {
                lemma_bit_and(a, m, i as u16);
                lemma_bit_zero(i as u16);
            }
        }
        assert(bit_set(a).intersect(bit_set(m)) =~= Set::<nat>::empty());
    } else {
        if bit_set(a).intersect(bit_set(m)) == Set::<nat>::empty() {
            assert forall|i: u16| i < 16 implies #[trigger] bit(a & m, i) == bit(0, i) by {
                lemma_bit_and(a, m, i);
                lemma_bit_zero(i);
                assert(!bit_set(a).intersect(bit_set(m)).contains(i as nat));
            }
            lemma_bits_ext(a & m, 0);
        }
    }
}

/// A set of lifetime-bypass categories.
#[derive(Clone, Copy, Debug)]
pub struct BehaviorFlag {
    bits: u16,
}

impl View for BehaviorFlag {
    type V = Set<nat>;

    /// The bit positions that are set.
    closed spec fn view(&self) -> Set<nat> {
        bit_set(self.bits)
    }
}

impl BehaviorFlag {
    pub closed spec fn spec_bits(&self) -> u16 {
        self.bits
    }

    pub fn from_bits(bits: u16) -> (r: BehaviorFlag)
        ensures
            r.spec_bits() == bits,
            r@ == bit_set(bits),
    {
        BehaviorFlag { bits }
    }

    pub fn bits(&self) -> (r: u16)
        ensures
            r == self.spec_bits(),
    {
        self.bits
    }

    /// The tier of the most severe category that is set: the high tier
    /// gives `Error`, the medium tier `Warning`, anything else `Info`.
    pub fn report_level(&self) -> (r: ReportLevel)
        ensures
            r == flag_report_level(self@),
    {
        proof {
            lemma_and_zero(self.bits, HIGH_FLAGS);
            lemma_and_zero(self.bits, MEDIUM_FLAGS);
            lemma_high_flags();
            lemma_medium_flags();
        }
        if self.bits & HIGH_FLAGS != 0 {
            ReportLevel::Error
        } else if self.bits & MEDIUM_FLAGS != 0 {
            ReportLevel::Warning
        } else {
            ReportLevel::Info
        }
    }
}

/// The bit positions of the high tier: vector from raw parts, vector length
/// override.
pub open spec fn high_atoms() -> Set<nat> {
    set![2nat, 8nat]
}

/// The bit positions of the medium tier: read, copy, write.
pub open spec fn medium_atoms() -> Set<nat> {
    set![0nat, 1nat, 4nat]
}

pub open spec fn flag_report_level(atoms: Set<nat>) -> ReportLevel {
    if atoms.intersect(high_atoms()) != Set::<nat>::empty() {
        ReportLevel::Error
    } else if atoms.intersect(medium_atoms()) != Set::<nat>::empty() {
        ReportLevel::Warning
    } else {
        ReportLevel::Info
    }
}

proof fn lemma_high_flags()
    ensures
        bit_set(HIGH_FLAGS) == high_atoms(),
{
    assert forall|i: nat| bit_set(HIGH_FLAGS).contains(i) <==> high_atoms().contains(i) by {
        if i < 16 {
            let j = i as u16;
            assert(bit(HIGH_FLAGS, j) <==> (j == 2 || j == 8)) by (bit_vector)
                requires
                    j < 16,
                    HIGH_FLAGS == 0b100000100u16,
            ;
        }
    }
    assert(bit_set(HIGH_FLAGS) =~= high_atoms());
}

proof fn lemma_medium_flags()
    ensures
        bit_set(MEDIUM_FLAGS) == medium_atoms(),
{
    assert forall|i: nat| bit_set(MEDIUM_FLAGS).contains(i) <==> medium_atoms().contains(i) by {
        if i < 16 {
            let j = i as u16;
            assert(bit(MEDIUM_FLAGS, j) <==> (j == 0 || j == 1 || j == 4)) by (bit_vector)
                requires
                    j < 16,
                    MEDIUM_FLAGS == 0b10011u16,
            ;
        }
    }
    assert(bit_set(MEDIUM_FLAGS) =~= medium_atoms());
}

/// The length-override flag is of the high tier.
pub proof fn lemma_high_tier_set_len()
    ensures
        flag_report_level(bit_set(VEC_SET_LEN)) == ReportLevel::Error,
{
    let j: u16 = 8;
    assert(bit(VEC_SET_LEN, j)) by (bit_vector)
        requires
            VEC_SET_LEN == 0b100000000u16,
            j == 8,
    ;
    assert(bit_set(VEC_SET_LEN).intersect(high_atoms()).contains(8nat));
}

impl GraphTaint for BehaviorFlag {
    open spec fn atoms(&self) -> Set<nat> {
        self@
    }

    fn empty() -> (r: Self) {
        proof {
            assert forall|i: nat| !bit_set(0).contains(i) by {
                lemma_bit_zero(i as u16);
            }
            assert(bit_set(0) =~= Set::<nat>::empty());
        }
        BehaviorFlag { bits: 0 }
    }

    fn is_empty(&self) -> (r: bool) {
        proof {
            lemma_and_zero(self.bits, 0xffff);
            assert forall|i: nat| #![auto] i < 16 implies bit_set(0xffff).contains(i) by {
                let j = i as u16;
                assert(bit(0xffffu16, j)) by (bit_vector)
                    requires
                        j < 16,
                ;
            }
            assert(bit_set(self.bits).intersect(bit_set(0xffff)) =~= bit_set(self.bits));
            let b = self.bits;
            assert(b & 0xffff == b) by (bit_vector);
        }
        self.bits == 0
    }

    fn contains(&self, taint: &Self) -> (r: bool) {
        proof {
            if self.bits & taint.bits == taint.bits {
                assert forall|i: nat| bit_set(taint.bits).contains(i) implies bit_set(
                    self.bits,
                ).contains(i) by {
                    lemma_bit_and(self.bits, taint.bits, i as u16);
                }
            } else if bit_set(taint.bits).subset_of(bit_set(self.bits)) {
                assert forall|i: u16| i < 16 implies #[trigger] bit(self.bits & taint.bits, i)
                    == bit(taint.bits, i) by {
                    lemma_bit_and(self.bits, taint.bits, i);
                    assert(bit_set(taint.bits).contains(i as nat) ==> bit_set(self.bits).contains(
                        i as nat,
                    ));
                }
                lemma_bits_ext(self.bits & taint.bits, taint.bits);
            }
        }
        self.bits & taint.bits == taint.bits
    }

    fn join(&mut self, taint: &Self) {
        proof {
            lemma_bit_set_or(self.bits, taint.bits);
        }
        self.bits = self.bits | taint.bits;
    }
}

} // verus!
