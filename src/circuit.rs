use vstd::prelude::*;

verus! {

/// A constrained boolean: a constant, or a wire of the constraint system read
/// as it is or negated. Negation never costs a constraint.
#[derive(Clone, Copy, Debug, PartialEq, Eq, Structural)]
pub enum Bit {
    Constant(bool),
    Is(usize),
    Not(usize),
}

/// A boolean gate over earlier bits; each one defines a fresh wire.
#[derive(Clone, Copy, Debug, PartialEq, Eq, Structural)]
pub enum Gate {
    And(Bit, Bit),
    Or(Bit, Bit),
    Xor(Bit, Bit),
    /// `Select(c, t, f)` is `t` where `c` holds and `f` elsewhere.
    Select(Bit, Bit, Bit),
}

/// How a wire came to be: a free input, or the output of a gate.
#[derive(Clone, Copy, Debug, PartialEq, Eq, Structural)]
pub enum Wire {
    Input,
    Output(Gate),
}

/// The one kind of failure of the constraint system.
#[derive(Clone, Copy, Debug, PartialEq, Eq, Structural)]
pub enum SynthesisError {
    /// No room is left for another wire.
    CapacityExhausted,
}

/// Value of a bit under an assignment of the wires.
pub open spec fn bit_val(b: Bit, asg: Seq<bool>) -> bool {
    match b {
        Bit::Constant(c) => c,
        Bit::Is(i) => asg[i as int],
        Bit::Not(i) => !asg[i as int],
    }
}

/// The bit refers only to wires below `n`.
pub open spec fn bit_in(b: Bit, n: nat) -> bool {
    match b {
        Bit::Constant(_) => true,
        Bit::Is(i) => i < n,
        Bit::Not(i) => i < n,
    }
}

/// Every bit of `bits` refers only to wires below `n`.
pub open spec fn bits_in(bits: Seq<Bit>, n: nat) -> bool {
    forall|k: int| 0 <= k < bits.len() ==> #[trigger] bit_in(bits[k], n)
}

/// Value of a gate's output under an assignment of the wires.
pub open spec fn gate_val(g: Gate, asg: Seq<bool>) -> bool {
    match g {
        Gate::And(x, y) => bit_val(x, asg) && bit_val(y, asg),
        Gate::Or(x, y) => bit_val(x, asg) || bit_val(y, asg),
        Gate::Xor(x, y) => bit_val(x, asg) != bit_val(y, asg),
        Gate::Select(c, t, f) => if bit_val(c, asg) {
            bit_val(t, asg)
        } else {
            bit_val(f, asg)
        },
    }
}

/// Every input of `g` is a wire below `n` or a constant.
pub open spec fn gate_in(g: Gate, n: nat) -> bool {
    match g {
        Gate::And(x, y) => bit_in(x, n) && bit_in(y, n),
        Gate::Or(x, y) => bit_in(x, n) && bit_in(y, n),
        Gate::Xor(x, y) => bit_in(x, n) && bit_in(y, n),
        Gate::Select(c, t, f) => bit_in(c, n) && bit_in(t, n) && bit_in(f, n),
    }
}

/// Each gate reads only wires defined before its own.
pub open spec fn acyclic(wires: Seq<Wire>) -> bool {
    forall|i: int|
        0 <= i < wires.len() && (#[trigger] wires[i]) is Output ==> gate_in(
            wires[i]->Output_0,
            i as nat,
        )
}

/// `asg` is a witness of the constraints: it has a value for every wire, and
/// each gate output carries what its gate computes from its inputs.
pub open spec fn satisfies(wires: Seq<Wire>, asg: Seq<bool>) -> bool {
    &&& wires.len() <= asg.len()
    &&& forall|i: int|
        0 <= i < wires.len() && (#[trigger] wires[i]) is Output ==> asg[i] == gate_val(
            wires[i]->Output_0,
            asg,
        )
}

/// The number that `bits` stands for, least significant bit first.
pub open spec fn num(bits: Seq<Bit>, asg: Seq<bool>) -> nat
    decreases bits.len(),
{
    if bits.len() == 0 {
        0
    } else {
        (if bit_val(bits[0], asg) {
            1nat
        } else {
            0nat
        }) + 2 * num(bits.subrange(1, bits.len() as int), asg)
    }
}

/// The negation of a bit.
pub open spec fn negated(b: Bit) -> Bit {
    match b {
        Bit::Constant(c) => Bit::Constant(!c),
        Bit::Is(i) => Bit::Not(i),
        Bit::Not(i) => Bit::Is(i),
    }
}

/// Bits that read only wires below `n` read only wires below any `m >= n`.
pub proof fn lemma_bits_in_grow(bits: Seq<Bit>, n: nat, m: nat)
    requires
        bits_in(bits, n),
        n <= m,
    ensures
        bits_in(bits, m),
{
    assert forall|k: int| 0 <= k < bits.len() implies #[trigger] bit_in(bits[k], m) by {
        assert(bit_in(bits[k], n));
    }
}

/// `small` is a prefix of `big`.
pub open spec fn prefix_of<A>(small: Seq<A>, big: Seq<A>) -> bool {
    &&& small.len() <= big.len()
    &&& forall|i: int| 0 <= i < small.len() ==> #[trigger] big[i] == small[i]
}

/// A witness of a larger system is a witness of every prefix of it.
pub proof fn lemma_satisfies_prefix(small: Seq<Wire>, big: Seq<Wire>, asg: Seq<bool>)
    requires
        prefix_of(small, big),
        satisfies(big, asg),
    ensures
        satisfies(small, asg),
{
    assert forall|i: int| 0 <= i < small.len() && (#[trigger] small[i]) is Output implies asg[i]
        == gate_val(small[i]->Output_0, asg) by {
        assert(big[i] == small[i]);
    }
}

impl Bit {
    /// The negation of the bit; it adds no constraint.
    pub fn not(&self) -> (r: Bit)
        ensures
            r == negated(*self),
    {
        match *self {
            Bit::Constant(c) => Bit::Constant(!c),
            Bit::Is(i) => Bit::Not(i),
            Bit::Not(i) => Bit::Is(i),
        }
    }

    /// A constant bit.
    pub fn constant(c: bool) -> (r: Bit)
        ensures
            r == Bit::Constant(c),
    {
        Bit::Constant(c)
    }
}

/// An append-only ledger of wires: free inputs and gate outputs, with a witness
/// value for each, and room for at most `capacity` wires.
pub struct ConstraintSystem {
    wires: Vec<Wire>,
    values: Vec<bool>,
    capacity: usize,
}

impl ConstraintSystem {
    /// The wires recorded so far, in the order of their definition.
    pub closed spec fn wires(&self) -> Seq<Wire> {
        self.wires@
    }

    /// The witness: a value for each wire.
    pub closed spec fn values(&self) -> Seq<bool> {
        self.values@
    }

    /// The largest number of wires the system takes.
    pub closed spec fn capacity(&self) -> nat {
        self.capacity as nat
    }

    pub open spec fn wf(&self) -> bool {
        &&& self.wires().len() == self.values().len()
        &&& self.wires().len() <= self.capacity()
        &&& self.capacity() <= usize::MAX
        &&& acyclic(self.wires())
        &&& satisfies(self.wires(), self.values())
    }

    /// `self` is `old` with zero or more wires after it.
    pub open spec fn grows(&self, old: &ConstraintSystem) -> bool {
        &&& self.capacity() == old.capacity()
        &&& prefix_of(old.wires(), self.wires())
        &&& prefix_of(old.values(), self.values())
    }

    /// `self` is `old` with `k` more wires after it.
    pub open spec fn extends(&self, old: &ConstraintSystem, k: nat) -> bool {
        &&& self.grows(old)
        &&& self.wires().len() == old.wires().len() + k
    }

    /// An empty system with room for `capacity` wires.
    pub fn new(capacity: usize) -> (r: ConstraintSystem)
        ensures
            r.wf(),
            r.wires().len() == 0,
            r.capacity() == capacity,
    {
        ConstraintSystem { wires: Vec::new(), values: Vec::new(), capacity }
    }

    /// The number of wires recorded so far.
    pub fn num_wires(&self) -> (r: usize)
        ensures
            r == self.wires().len(),
    {
        self.wires.len()
    }

    /// The witness value of a bit.
    pub fn value(&self, b: Bit) -> (r: bool)
        requires
            self.wf(),
            bit_in(b, self.wires().len()),
        ensures
            r == bit_val(b, self.values()),
    {
        match b {
            Bit::Constant(c) => c,
            Bit::Is(i) => self.values[i],
            Bit::Not(i) => !self.values[i],
        }
    }

    /// Appends a wire with its witness value; fails when no room is left.
    fn push_wire(&mut self, w: Wire, v: bool) -> (r: Result<Bit, SynthesisError>)
        requires
            old(self).wf(),
            w is Output ==> gate_in(w->Output_0, old(self).wires().len()) && v == gate_val(
                w->Output_0,
                old(self).values(),
            ),
        ensures
            final(self).wf(),
            r is Err <==> old(self).wires().len() == old(self).capacity(),
            r is Err ==> final(self).extends(old(self), 0),
            r is Ok ==> final(self).extends(old(self), 1) && r->Ok_0 == Bit::Is(
                old(self).wires().len() as usize,
            ) && final(self).wires().last() == w && final(self).values().last() == v,
    {
        if self.wires.len() == self.capacity {
            return Err(SynthesisError::CapacityExhausted);
        }
        let ghost ow = self.wires@;
        let ghost ov = self.values@;
        let n = self.wires.len();
        self.wires.push(w);
        self.values.push(v);
        proof {
            let nw = self.wires@;
            let nv = self.values@;
            assert(prefix_of(ov, nv));
            assert forall|i: int| 0 <= i < nw.len() && (#[trigger] nw[i]) is Output implies gate_in(
                nw[i]->Output_0,
                i as nat,
            ) by {
                if i < n {
                    assert(nw[i] == ow[i]);
                }
            }
            assert forall|i: int| 0 <= i < nw.len() && (#[trigger] nw[i]) is Output implies nv[i]
                == gate_val(nw[i]->Output_0, nv) by {
                if i < n {
                    assert(nw[i] == ow[i]);
                    lemma_gate_val_extend(ow[i]->Output_0, i as nat, ov, nv);
                } else {
                    lemma_gate_val_extend(w->Output_0, n as nat, ov, nv);
                }
            }
        }
        Ok(Bit::Is(n))
    }

    /// Allocates a free input wire holding `v` in the witness.
    pub fn alloc_input(&mut self, v: bool) -> (r: Result<Bit, SynthesisError>)
        requires
            old(self).wf(),
        ensures
            final(self).wf(),
            r is Err <==> old(self).wires().len() == old(self).capacity(),
            r is Err ==> final(self).extends(old(self), 0),
            r is Ok ==> final(self).extends(old(self), 1) && r->Ok_0 == Bit::Is(
                old(self).wires().len() as usize,
            ) && final(self).wires().last() == Wire::Input && bit_val(r->Ok_0, final(self).values())
                == v,
    {
        self.push_wire(Wire::Input, v)
    }

    /// Records gate `g` on a fresh wire and returns that wire.
    pub fn enforce(&mut self, g: Gate) -> (r: Result<Bit, SynthesisError>)
        requires
            old(self).wf(),
            gate_in(g, old(self).wires().len()),
        ensures
            final(self).wf(),
            r is Err <==> old(self).wires().len() == old(self).capacity(),
            r is Err ==> final(self).extends(old(self), 0),
            r is Ok ==> final(self).extends(old(self), 1) && r->Ok_0 == Bit::Is(
                old(self).wires().len() as usize,
            ) && final(self).wires().last() == Wire::Output(g),
            forall|asg: Seq<bool>|
                #[trigger] satisfies(final(self).wires(), asg) ==> satisfies(old(self).wires(), asg)
                    && (r is Ok ==> bit_val(r->Ok_0, asg) == gate_val(g, asg)),
    {
        let v = match g {
            Gate::And(x, y) => self.value(x) && self.value(y),
            Gate::Or(x, y) => self.value(x) || self.value(y),
            Gate::Xor(x, y) => self.value(x) != self.value(y),
            Gate::Select(c, t, f) => if self.value(c) {
                self.value(t)
            } else {
                self.value(f)
            },
        };
        let r = self.push_wire(Wire::Output(g), v);
        proof {
            assert forall|asg: Seq<bool>| #[trigger]
                satisfies(self.wires(), asg) implies satisfies(old(self).wires(), asg) && (r is Ok
                ==> bit_val(r->Ok_0, asg) == gate_val(g, asg)) by {
                lemma_satisfies_prefix(old(self).wires(), self.wires(), asg);
                if r is Ok {
                    let i = old(self).wires().len() as int;
                    assert(self.wires()[i] == Wire::Output(g));
                }
            }
        }
        r
    }
}

/// A gate's value depends only on the wires it reads.
proof fn lemma_gate_val_extend(g: Gate, n: nat, small: Seq<bool>, big: Seq<bool>)
    requires
        gate_in(g, n),
        n <= small.len(),
        prefix_of(small, big),
    ensures
        gate_val(g, small) == gate_val(g, big),
{
}

} // verus!
