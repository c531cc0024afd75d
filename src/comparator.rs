use vstd::prelude::*;
use crate::circuit::{
    bit_in, bit_val, bits_in, num, prefix_of, satisfies, Bit, ConstraintSystem, Gate,
    SynthesisError, Wire,
};

verus! {

/// Wires that one strict comparison of two `n`-bit operands adds: five gates
/// for each bit and one to rule out equality.
pub open spec fn lt_cost(n: nat) -> nat {
    5 * n + 1
}

/// In every witness of `wires`, `r` holds exactly when `a` is less than `b`.
pub open spec fn decides_lt(wires: Seq<Wire>, r: Bit, a: Seq<Bit>, b: Seq<Bit>) -> bool {
    &&& bit_in(r, wires.len())
    &&& forall|asg: Seq<bool>| #[trigger]
        satisfies(wires, asg) ==> (bit_val(r, asg) <==> num(a, asg) < num(b, asg))
}

/// In every witness of `wires`, `r` holds exactly when `a` is at most `b`.
pub open spec fn decides_le(wires: Seq<Wire>, r: Bit, a: Seq<Bit>, b: Seq<Bit>) -> bool {
    &&& bit_in(r, wires.len())
    &&& forall|asg: Seq<bool>| #[trigger]
        satisfies(wires, asg) ==> (bit_val(r, asg) <==> num(a, asg) <= num(b, asg))
}

/// The operands of a comparison are fit to be compared in `cs`.
pub open spec fn comparable(cs: ConstraintSystem, a: Seq<Bit>, b: Seq<Bit>) -> bool {
    &&& cs.wf()
    &&& a.len() == b.len()
    &&& bits_in(a, cs.wires().len())
    &&& bits_in(b, cs.wires().len())
}

/// What a comparison of `n`-bit operands leaves: it fails exactly when `old`
/// has no room for its wires, and otherwise adds exactly those wires.
pub open spec fn outcome(
    old: ConstraintSystem,
    new: ConstraintSystem,
    n: nat,
    r: Result<Bit, SynthesisError>,
) -> bool {
    &&& new.wf()
    &&& new.grows(&old)
    &&& (r is Err <==> old.wires().len() + lt_cost(n) > old.capacity())
    &&& (r is Ok ==> new.extends(&old, lt_cost(n)))
}

/// The number of a bit sequence's top part, one bit further down.
proof fn lemma_num_step(s: Seq<Bit>, k: int, asg: Seq<bool>)
    requires
        0 < k <= s.len(),
    ensures
        num(s.subrange(k - 1, s.len() as int), asg) == (if bit_val(s[k - 1], asg) {
            1nat
        } else {
            0nat
        }) + 2 * num(s.subrange(k, s.len() as int), asg),
{
    let t = s.subrange(k - 1, s.len() as int);
    assert(t.subrange(1, t.len() as int) =~= s.subrange(k, s.len() as int));
}

/// One step of the scan: with the higher parts `x`, `y` and the next bits
/// `p`, `q`, the order of the extended parts.
proof fn lemma_order_step(x: nat, y: nat, p: nat, q: nat)
    requires
        p <= 1,
        q <= 1,
    ensures
        (2 * x + p <= 2 * y + q) == (if x == y {
            p <= q
        } else {
            x <= y
        }),
        (2 * x + p == 2 * y + q) == (x == y && p == q),
{
}

/// Builds a wire that, in every witness, holds exactly when the number of `a`
/// is less than that of `b` (both least significant bit first). The scan runs
/// from the most significant bit down, and the verdict is taken at the highest
/// bit where the operands differ.
pub fn bitwise_less_than(cs: &mut ConstraintSystem, a: &Vec<Bit>, b: &Vec<Bit>) -> (r: Result<
    Bit,
    SynthesisError,
>)
    requires
        comparable(*old(cs), a@, b@),
    ensures
        outcome(*old(cs), *final(cs), a@.len(), r),
        r is Ok ==> decides_lt(final(cs).wires(), r->Ok_0, a@, b@),
{
    let n = a.len();
    let ghost start = *cs;
    let mut result = Bit::constant(true);
    let mut all_equal = Bit::constant(true);
    let mut j: usize = 0;
    proof {
        assert(a@.subrange(n as int, n as int) =~= Seq::<Bit>::empty());
        assert(b@.subrange(n as int, n as int) =~= Seq::<Bit>::empty());
    }
    while j < n
        invariant
            comparable(start, a@, b@),
            start == *old(cs),
            n == a@.len(),
            j <= n,
            cs.wf(),
            cs.extends(&start, 5 * j as nat),
            bit_in(result, cs.wires().len()),
            bit_in(all_equal, cs.wires().len()),
            forall|asg: Seq<bool>| #[trigger]
                satisfies(cs.wires(), asg) ==> (bit_val(result, asg) <==> num(
                    a@.subrange(n - j, n as int),
                    asg,
                ) <= num(b@.subrange(n - j, n as int), asg)) && (bit_val(all_equal, asg) <==> num(
                    a@.subrange(n - j, n as int),
                    asg,
                ) == num(b@.subrange(n - j, n as int), asg)),
        decreases n - j,
    {
        let i = n - 1 - j;
        let x = a[i];
        let y = b[i];
        let ghost head = *cs;
        assert(bit_in(x, start.wires().len()) && bit_in(y, start.wires().len()));
        let less = cs.enforce(Gate::And(x.not(), y))?;
        let differ = cs.enforce(Gate::Xor(x, y))?;
        let equal = differ.not();
        let less_or_equal = cs.enforce(Gate::Or(less, equal))?;
        let next = cs.enforce(Gate::Select(all_equal, less_or_equal, result))?;
        all_equal = cs.enforce(Gate::And(all_equal, equal))?;
        result = next;
        j = j + 1;
        proof {
            assert forall|asg: Seq<bool>| #[trigger]
                satisfies(cs.wires(), asg) implies (bit_val(result, asg) <==> num(
                a@.subrange(n - j, n as int),
                asg,
            ) <= num(b@.subrange(n - j, n as int), asg)) && (bit_val(all_equal, asg) <==> num(
                a@.subrange(n - j, n as int),
                asg,
            ) == num(b@.subrange(n - j, n as int), asg)) by {
                assert(satisfies(head.wires(), asg));
                lemma_num_step(a@, n - j + 1, asg);
                lemma_num_step(b@, n - j + 1, asg);
                lemma_order_step(
                    num(a@.subrange(n - j + 1, n as int), asg),
                    num(b@.subrange(n - j + 1, n as int), asg),
                    if bit_val(x, asg) {
                        1nat
                    } else {
                        0nat
                    },
                    if bit_val(y, asg) {
                        1nat
                    } else {
                        0nat
                    },
                );
            }
        }
    }
    let ghost head = *cs;
    let r = cs.enforce(Gate::And(result, all_equal.not()))?;
    proof {
        assert(a@.subrange(0, n as int) =~= a@);
        assert(b@.subrange(0, n as int) =~= b@);
        assert forall|asg: Seq<bool>| #[trigger] satisfies(cs.wires(), asg) implies (bit_val(
            r,
            asg,
        ) <==> num(a@, asg) < num(b@, asg)) by {
            assert(satisfies(head.wires(), asg));
        }
    }
    Ok(r)
}

/// A type that stands for a fixed-width unsigned integer in a circuit, and
/// can decide in the circuit whether its value is below another's.
pub trait EvaluateLtGadget: Sized {
    /// The bits of the operand, least significant first.
    spec fn bits_view(&self) -> Seq<Bit>;

    /// A wire that, in every witness, holds exactly when `self` is less than
    /// `other`.
    fn less_than(&self, cs: &mut ConstraintSystem, other: &Self) -> (r: Result<
        Bit,
        SynthesisError,
    >)
        requires
            comparable(*old(cs), self.bits_view(), other.bits_view()),
        ensures
            outcome(*old(cs), *final(cs), self.bits_view().len(), r),
            r is Ok ==> decides_lt(
                final(cs).wires(),
                r->Ok_0,
                self.bits_view(),
                other.bits_view(),
            ),
    ;
}

/// The other order relations, each obtained from `less_than` by swapping the
/// operands or negating the result, at no cost in constraints.
pub trait ComparatorGadget: EvaluateLtGadget {
    /// A wire that holds exactly when `self` is greater than `other`.
    fn greater_than(&self, cs: &mut ConstraintSystem, other: &Self) -> (r: Result<
        Bit,
        SynthesisError,
    >)
        requires
            comparable(*old(cs), self.bits_view(), other.bits_view()),
        ensures
            outcome(*old(cs), *final(cs), self.bits_view().len(), r),
            r is Ok ==> decides_lt(
                final(cs).wires(),
                r->Ok_0,
                other.bits_view(),
                self.bits_view(),
            ),
    {
        other.less_than(cs, self)
    }

    /// A wire that holds exactly when `self` is at most `other`.
    fn less_than_or_equal(&self, cs: &mut ConstraintSystem, other: &Self) -> (r: Result<
        Bit,
        SynthesisError,
    >)
        requires
            comparable(*old(cs), self.bits_view(), other.bits_view()),
        ensures
            outcome(*old(cs), *final(cs), self.bits_view().len(), r),
            r is Ok ==> decides_le(
                final(cs).wires(),
                r->Ok_0,
                self.bits_view(),
                other.bits_view(),
            ),
    {
        let is_gt = self.greater_than(cs, other)?;
        let r = is_gt.not();
        proof {
            assert forall|asg: Seq<bool>| #[trigger] satisfies(cs.wires(), asg) implies (bit_val(
                r,
                asg,
            ) <==> num(self.bits_view(), asg) <= num(other.bits_view(), asg)) by {
                assert(bit_val(r, asg) == !bit_val(is_gt, asg));
            }
        }
        Ok(r)
    }

    /// A wire that holds exactly when `self` is at least `other`.
    fn greater_than_or_equal(&self, cs: &mut ConstraintSystem, other: &Self) -> (r: Result<
        Bit,
        SynthesisError,
    >)
        requires
            comparable(*old(cs), self.bits_view(), other.bits_view()),
        ensures
            outcome(*old(cs), *final(cs), self.bits_view().len(), r),
            r is Ok ==> decides_le(
                final(cs).wires(),
                r->Ok_0,
                other.bits_view(),
                self.bits_view(),
            ),
    {
        other.less_than_or_equal(cs, self)
    }
}

/// What a wire decides stays decided as the system grows: every witness of
/// the larger system is one of the smaller.
pub proof fn lemma_decision_persists(
    small: Seq<Wire>,
    big: Seq<Wire>,
    r: Bit,
    a: Seq<Bit>,
    b: Seq<Bit>,
)
    requires
        prefix_of(small, big),
    ensures
        decides_lt(small, r, a, b) ==> decides_lt(big, r, a, b),
        decides_le(small, r, a, b) ==> decides_le(big, r, a, b),
{
    assert forall|asg: Seq<bool>| #[trigger] satisfies(big, asg) implies satisfies(small, asg) by {
        crate::circuit::lemma_satisfies_prefix(small, big, asg);
    }
}

/// The witness that the system carries gives a decided wire the value of the
/// comparison of the operands' witness values.
pub proof fn lemma_witness_agrees(cs: ConstraintSystem, r: Bit, a: Seq<Bit>, b: Seq<Bit>)
    requires
        cs.wf(),
    ensures
        decides_lt(cs.wires(), r, a, b) ==> (bit_val(r, cs.values()) <==> num(a, cs.values())
            < num(b, cs.values())),
        decides_le(cs.wires(), r, a, b) ==> (bit_val(r, cs.values()) <==> num(a, cs.values())
            <= num(b, cs.values())),
{
    assert(satisfies(cs.wires(), cs.values()));
}

/// Exactly one of `a < b`, `a == b` and `a > b` holds in every witness, and
/// `a <= b` is the negation of `a > b`.
pub proof fn lemma_trichotomy(
    wires: Seq<Wire>,
    lt: Bit,
    gt: Bit,
    le: Bit,
    a: Seq<Bit>,
    b: Seq<Bit>,
    asg: Seq<bool>,
)
    requires
        decides_lt(wires, lt, a, b),
        decides_lt(wires, gt, b, a),
        decides_le(wires, le, a, b),
        satisfies(wires, asg),
    ensures
        (bit_val(lt, asg) && num(a, asg) != num(b, asg) && !bit_val(gt, asg)) || (!bit_val(lt, asg)
            && num(a, asg) == num(b, asg) && !bit_val(gt, asg)) || (!bit_val(lt, asg) && num(a, asg)
            != num(b, asg) && bit_val(gt, asg)),
        bit_val(le, asg) == !bit_val(gt, asg),
{
}

/// `a >= b` and `b <= a` are the same relation: two wires that decide it
/// agree in every witness.
pub proof fn lemma_ge_is_swapped_le(
    wires: Seq<Wire>,
    ge: Bit,
    le: Bit,
    a: Seq<Bit>,
    b: Seq<Bit>,
    asg: Seq<bool>,
)
    requires
        decides_le(wires, ge, b, a),
        decides_le(wires, le, b, a),
        satisfies(wires, asg),
    ensures
        bit_val(ge, asg) == bit_val(le, asg),
{
}

/// No operand is less than itself, and every operand is at most itself.
pub proof fn lemma_reflexivity(wires: Seq<Wire>, lt: Bit, le: Bit, a: Seq<Bit>, asg: Seq<bool>)
    requires
        decides_lt(wires, lt, a, a),
        decides_le(wires, le, a, a),
        satisfies(wires, asg),
    ensures
        !bit_val(lt, asg),
        bit_val(le, asg),
{
}

/// Two operands are never each less than the other.
pub proof fn lemma_antisymmetry(
    wires: Seq<Wire>,
    ab: Bit,
    ba: Bit,
    a: Seq<Bit>,
    b: Seq<Bit>,
    asg: Seq<bool>,
)
    requires
        decides_lt(wires, ab, a, b),
        decides_lt(wires, ba, b, a),
        satisfies(wires, asg),
    ensures
        !(bit_val(ab, asg) && bit_val(ba, asg)),
{
}

} // verus!
