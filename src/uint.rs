use vstd::prelude::*;
use vstd::arithmetic::power2::{lemma2_to64, lemma_pow2_adds, lemma_pow2_unfold, pow2};
use crate::circuit::{
    bit_in, bit_val, bits_in, num, prefix_of, Bit, ConstraintSystem, SynthesisError,
};
use crate::comparator::{bitwise_less_than, ComparatorGadget, EvaluateLtGadget};

verus! {

/// Appending a bit adds its weight at the new top position.
proof fn lemma_num_push(s: Seq<Bit>, b: Bit, asg: Seq<bool>)
    ensures
        num(s.push(b), asg) == num(s, asg) + (if bit_val(b, asg) {
            pow2(s.len())
        } else {
            0
        }),
    decreases s.len(),
{
    let t = s.push(b);
    if s.len() == 0 {
        lemma2_to64();
        assert(t.subrange(1, t.len() as int) =~= Seq::<Bit>::empty());
        assert(num(Seq::<Bit>::empty(), asg) == 0);
        assert(t[0] == b);
    } else {
        let rest = s.subrange(1, s.len() as int);
        assert(t.subrange(1, t.len() as int) =~= rest.push(b));
        lemma_num_push(rest, b, asg);
        lemma_pow2_unfold(s.len());
        assert(t[0] == s[0]);
        assert(rest.len() == s.len() - 1);
    }
}

/// The number of bits that read only wires below `n` does not change when the
/// assignment grows beyond them.
pub proof fn lemma_num_extend(bits: Seq<Bit>, n: nat, small: Seq<bool>, big: Seq<bool>)
    requires
        bits_in(bits, n),
        n <= small.len(),
        prefix_of(small, big),
    ensures
        num(bits, small) == num(bits, big),
    decreases bits.len(),
{
    if bits.len() > 0 {
        let rest = bits.subrange(1, bits.len() as int);
        assert forall|k: int| 0 <= k < rest.len() implies #[trigger] bit_in(rest[k], n) by {
            assert(rest[k] == bits[k + 1]);
            assert(bit_in(bits[k + 1], n));
        }
        assert(bit_in(bits[0], n));
        match bits[0] {
            Bit::Is(i) => assert(big[i as int] == small[i as int]),
            Bit::Not(i) => assert(big[i as int] == small[i as int]),
            Bit::Constant(_) => {},
        }
        lemma_num_extend(rest, n, small, big);
    }
}

/// Allocates `width` free input wires whose witness values are the bits of
/// `value`, least significant first.
fn alloc_bits(cs: &mut ConstraintSystem, value: u128, width: usize) -> (r: Result<
    Vec<Bit>,
    SynthesisError,
>)
    requires
        old(cs).wf(),
        value < pow2(width as nat),
    ensures
        final(cs).wf(),
        final(cs).grows(old(cs)),
        r is Err <==> old(cs).wires().len() + width > old(cs).capacity(),
        r is Ok ==> final(cs).extends(old(cs), width as nat) && r->Ok_0@.len() == width && bits_in(
            r->Ok_0@,
            final(cs).wires().len(),
        ) && num(r->Ok_0@, final(cs).values()) == value,
{
    let ghost start = *cs;
    let mut bits: Vec<Bit> = Vec::new();
    let mut v: u128 = value;
    let mut i: usize = 0;
    proof {
        lemma2_to64();
    }
    while i < width
        invariant
            start == *old(cs),
            cs.wf(),
            cs.extends(&start, i as nat),
            i <= width,
            bits@.len() == i,
            bits_in(bits@, cs.wires().len()),
            value == num(bits@, cs.values()) + pow2(i as nat) * v,
            v < pow2((width - i) as nat),
        decreases width - i,
    {
        let ghost before = *cs;
        let bit = cs.alloc_input(v % 2 == 1)?;
        proof {
            lemma_num_extend(bits@, before.wires().len(), before.values(), cs.values());
            lemma_num_push(bits@, bit, cs.values());
            lemma_pow2_unfold((i + 1) as nat);
            lemma_pow2_unfold((width - i) as nat);
            let p = pow2(i as nat);
            let h = v / 2;
            let m = v % 2;
            assert(p * v == p * m + 2 * p * h) by (nonlinear_arith)
                requires
                    v == 2 * h + m,
            ;
            assert forall|k: int| 0 <= k < bits@.push(bit).len() implies #[trigger] bit_in(
                bits@.push(bit)[k],
                cs.wires().len(),
            ) by {
                if k < bits@.len() {
                    assert(bit_in(bits@[k], before.wires().len()));
                }
            }
        }
        bits.push(bit);
        v = v / 2;
        i = i + 1;
    }
    Ok(bits)
}

/// A 8-bit unsigned integer in a circuit: its bits, least significant first.
pub struct UInt8 {
    bits: Vec<Bit>,
}

impl UInt8 {
    /// Allocates 8 input wires that hold the bits of `value` in the witness.
    pub fn allocate(cs: &mut ConstraintSystem, value: u8) -> (r: Result<UInt8, SynthesisError>)
        requires
            old(cs).wf(),
        ensures
            final(cs).wf(),
            final(cs).grows(old(cs)),
            r is Err <==> old(cs).wires().len() + 8 > old(cs).capacity(),
            r is Ok ==> final(cs).extends(old(cs), 8) && r->Ok_0.bits_view().len() == 8
                && bits_in(r->Ok_0.bits_view(), final(cs).wires().len()) && num(
                r->Ok_0.bits_view(),
                final(cs).values(),
            ) == value,
    {
        proof {
            lemma2_to64();
        }
        let bits = alloc_bits(cs, value as u128, 8)?;
        Ok(UInt8 { bits })
    }

    /// The bits, least significant first.
    pub fn bits(&self) -> (r: &Vec<Bit>)
        ensures
            r@ == self.bits_view(),
    {
        &self.bits
    }
}

impl EvaluateLtGadget for UInt8 {
    closed spec fn bits_view(&self) -> Seq<Bit> {
        self.bits@
    }

    fn less_than(&self, cs: &mut ConstraintSystem, other: &Self) -> (r: Result<
        Bit,
        SynthesisError,
    >) {
        bitwise_less_than(cs, &self.bits, &other.bits)
    }
}

impl ComparatorGadget for UInt8 {}

/// A 16-bit unsigned integer in a circuit: its bits, least significant first.
pub struct UInt16 {
    bits: Vec<Bit>,
}

impl UInt16 {
    /// Allocates 16 input wires that hold the bits of `value` in the witness.
    pub fn allocate(cs: &mut ConstraintSystem, value: u16) -> (r: Result<UInt16, SynthesisError>)
        requires
            old(cs).wf(),
        ensures
            final(cs).wf(),
            final(cs).grows(old(cs)),
            r is Err <==> old(cs).wires().len() + 16 > old(cs).capacity(),
            r is Ok ==> final(cs).extends(old(cs), 16) && r->Ok_0.bits_view().len() == 16
                && bits_in(r->Ok_0.bits_view(), final(cs).wires().len()) && num(
                r->Ok_0.bits_view(),
                final(cs).values(),
            ) == value,
    {
        proof {
            lemma2_to64();
        }
        let bits = alloc_bits(cs, value as u128, 16)?;
        Ok(UInt16 { bits })
    }

    /// The bits, least significant first.
    pub fn bits(&self) -> (r: &Vec<Bit>)
        ensures
            r@ == self.bits_view(),
    {
        &self.bits
    }
}

impl EvaluateLtGadget for UInt16 {
    closed spec fn bits_view(&self) -> Seq<Bit> {
        self.bits@
    }

    fn less_than(&self, cs: &mut ConstraintSystem, other: &Self) -> (r: Result<
        Bit,
        SynthesisError,
    >) {
        bitwise_less_than(cs, &self.bits, &other.bits)
    }
}

impl ComparatorGadget for UInt16 {}

/// A 32-bit unsigned integer in a circuit: its bits, least significant first.
pub struct UInt32 {
    bits: Vec<Bit>,
}

impl UInt32 {
    /// Allocates 32 input wires that hold the bits of `value` in the witness.
    pub fn allocate(cs: &mut ConstraintSystem, value: u32) -> (r: Result<UInt32, SynthesisError>)
        requires
            old(cs).wf(),
        ensures
            final(cs).wf(),
            final(cs).grows(old(cs)),
            r is Err <==> old(cs).wires().len() + 32 > old(cs).capacity(),
            r is Ok ==> final(cs).extends(old(cs), 32) && r->Ok_0.bits_view().len() == 32
                && bits_in(r->Ok_0.bits_view(), final(cs).wires().len()) && num(
                r->Ok_0.bits_view(),
                final(cs).values(),
            ) == value,
    {
        proof {
            lemma2_to64();
        }
        let bits = alloc_bits(cs, value as u128, 32)?;
        Ok(UInt32 { bits })
    }

    /// The bits, least significant first.
    pub fn bits(&self) -> (r: &Vec<Bit>)
        ensures
            r@ == self.bits_view(),
    {
        &self.bits
    }
}

impl EvaluateLtGadget for UInt32 {
    closed spec fn bits_view(&self) -> Seq<Bit> {
        self.bits@
    }

    fn less_than(&self, cs: &mut ConstraintSystem, other: &Self) -> (r: Result<
        Bit,
        SynthesisError,
    >) {
        bitwise_less_than(cs, &self.bits, &other.bits)
    }
}

impl ComparatorGadget for UInt32 {}

/// A 64-bit unsigned integer in a circuit: its bits, least significant first.
pub struct UInt64 {
    bits: Vec<Bit>,
}

impl UInt64 {
    /// Allocates 64 input wires that hold the bits of `value` in the witness.
    pub fn allocate(cs: &mut ConstraintSystem, value: u64) -> (r: Result<UInt64, SynthesisError>)
        requires
            old(cs).wf(),
        ensures
            final(cs).wf(),
            final(cs).grows(old(cs)),
            r is Err <==> old(cs).wires().len() + 64 > old(cs).capacity(),
            r is Ok ==> final(cs).extends(old(cs), 64) && r->Ok_0.bits_view().len() == 64
                && bits_in(r->Ok_0.bits_view(), final(cs).wires().len()) && num(
                r->Ok_0.bits_view(),
                final(cs).values(),
            ) == value,
    {
        proof {
            lemma2_to64();
        }
        let bits = alloc_bits(cs, value as u128, 64)?;
        Ok(UInt64 { bits })
    }

    /// The bits, least significant first.
    pub fn bits(&self) -> (r: &Vec<Bit>)
        ensures
            r@ == self.bits_view(),
    {
        &self.bits
    }
}

impl EvaluateLtGadget for UInt64 {
    closed spec fn bits_view(&self) -> Seq<Bit> {
        self.bits@
    }

    fn less_than(&self, cs: &mut ConstraintSystem, other: &Self) -> (r: Result<
        Bit,
        SynthesisError,
    >) {
        bitwise_less_than(cs, &self.bits, &other.bits)
    }
}

impl ComparatorGadget for UInt64 {}

/// A 128-bit unsigned integer in a circuit: its bits, least significant first.
pub struct UInt128 {
    bits: Vec<Bit>,
}

impl UInt128 {
    /// Allocates 128 input wires that hold the bits of `value` in the witness.
    pub fn allocate(cs: &mut ConstraintSystem, value: u128) -> (r: Result<UInt128, SynthesisError>)
        requires
            old(cs).wf(),
        ensures
            final(cs).wf(),
            final(cs).grows(old(cs)),
            r is Err <==> old(cs).wires().len() + 128 > old(cs).capacity(),
            r is Ok ==> final(cs).extends(old(cs), 128) && r->Ok_0.bits_view().len() == 128
                && bits_in(r->Ok_0.bits_view(), final(cs).wires().len()) && num(
                r->Ok_0.bits_view(),
                final(cs).values(),
            ) == value,
    {
        proof {
            lemma2_to64();
            lemma_pow2_adds(64, 64);
        }
        let bits = alloc_bits(cs, value as u128, 128)?;
        Ok(UInt128 { bits })
    }

    /// The bits, least significant first.
    pub fn bits(&self) -> (r: &Vec<Bit>)
        ensures
            r@ == self.bits_view(),
    {
        &self.bits
    }
}

impl EvaluateLtGadget for UInt128 {
    closed spec fn bits_view(&self) -> Seq<Bit> {
        self.bits@
    }

    fn less_than(&self, cs: &mut ConstraintSystem, other: &Self) -> (r: Result<
        Bit,
        SynthesisError,
    >) {
        bitwise_less_than(cs, &self.bits, &other.bits)
    }
}

impl ComparatorGadget for UInt128 {}

} // verus!
