use vstd::prelude::*;

use super::{sym_xor, DNA};

verus! {

/// The six combination operators. Each one is `a ⊕ π(b)`, where `⊕` is the
/// group combination of `sym_xor` and `π` one of the six permutations of the
/// symbols that keep `A` in place.
#[derive(Clone, Copy, PartialEq, Eq, Structural, Debug)]
pub enum XorOp {
    /// `π` is the identity: the plain group combination.
    Plain,
    /// `π` swaps `G` and `T`.
    SwapGT,
    /// `π` swaps `C` and `G`.
    SwapCG,
    /// `π` sends `C` to `G`, `G` to `T` and `T` to `C`.
    CycleCGT,
    /// `π` sends `C` to `T`, `T` to `G` and `G` to `C`.
    CycleCTG,
    /// `π` swaps `C` and `T`.
    SwapCT,
}

/// The permutation `π` of an operator, applied to `b`.
pub open spec fn twist(op: XorOp, b: DNA) -> DNA {
    match op {
        XorOp::Plain => b,
        XorOp::SwapGT => if b == DNA::G { DNA::T } else if b == DNA::T { DNA::G } else { b },
        XorOp::SwapCG => if b == DNA::C { DNA::G } else if b == DNA::G { DNA::C } else { b },
        XorOp::CycleCGT => if b == DNA::C { DNA::G } else if b == DNA::G { DNA::T } else if b == DNA::T { DNA::C } else { b },
        XorOp::CycleCTG => if b == DNA::C { DNA::T } else if b == DNA::T { DNA::G } else if b == DNA::G { DNA::C } else { b },
        XorOp::SwapCT => if b == DNA::C { DNA::T } else if b == DNA::T { DNA::C } else { b },
    }
}

/// The value of operator `op` on `a` and `b`.
pub open spec fn combine(op: XorOp, a: DNA, b: DNA) -> DNA {
    sym_xor(a, twist(op, b))
}

/// The operator that a 2-symbol selector picks: a pair of equal symbols picks the
/// plain one; any other pair picks by its first symbol; anything but a pair picks
/// `SwapCT`.
pub open spec fn selected(key: Seq<DNA>) -> XorOp {
    if key.len() != 2 {
        XorOp::SwapCT
    } else if key[0] == key[1] {
        XorOp::Plain
    } else {
        match key[0] {
            DNA::A => XorOp::SwapGT,
            DNA::C => XorOp::SwapCG,
            DNA::G => XorOp::CycleCGT,
            DNA::T => XorOp::CycleCTG,
        }
    }
}

// Only this operator is commutative.
pub fn dnaxor_1(a: DNA, b: DNA) -> (r: DNA)
    ensures
        r == combine(XorOp::Plain, a, b),
{
    match a {
        DNA::A => b,
        DNA::C => match b {
            DNA::A => DNA::C,
            DNA::C => DNA::A,
            DNA::G => DNA::T,
            DNA::T => DNA::G,
        },
        DNA::G => match b {
            DNA::A => DNA::G,
            DNA::C => DNA::T,
            DNA::G => DNA::A,
            DNA::T => DNA::C,
        },
        DNA::T => match b {
            DNA::A => DNA::T,
            DNA::C => DNA::G,
            DNA::G => DNA::C,
            DNA::T => DNA::A,
        },
    }
}

pub fn dnaxor_2(a: DNA, b: DNA) -> (r: DNA)
    ensures
        r == combine(XorOp::SwapGT, a, b),
{
    match a {
        DNA::A => match b {
            DNA::A => DNA::A,
            DNA::C => DNA::C,
            DNA::G => DNA::T,
            DNA::T => DNA::G,
        },
        DNA::C => match b {
            DNA::A => DNA::C,
            DNA::C => DNA::A,
            DNA::G => DNA::G,
            DNA::T => DNA::T,
        },
        DNA::G => match b {
            DNA::A => DNA::G,
            DNA::C => DNA::T,
            DNA::G => DNA::C,
            DNA::T => DNA::A,
        },
        DNA::T => match b {
            DNA::A => DNA::T,
            DNA::C => DNA::G,
            DNA::G => DNA::A,
            DNA::T => DNA::C,
        },
    }
}

pub fn dnaxor_3(a: DNA, b: DNA) -> (r: DNA)
    ensures
        r == combine(XorOp::SwapCG, a, b),
{
    match a {
        DNA::A => match b {
            DNA::A => DNA::A,
            DNA::C => DNA::G,
            DNA::G => DNA::C,
            DNA::T => DNA::T,
        },
        DNA::C => match b {
            DNA::A => DNA::C,
            DNA::C => DNA::T,
            DNA::G => DNA::A,
            DNA::T => DNA::G,
        },
        DNA::G => match b {
            DNA::A => DNA::G,
            DNA::C => DNA::A,
            DNA::G => DNA::T,
            DNA::T => DNA::C,
        },
        DNA::T => match b {
            DNA::A => DNA::T,
            DNA::C => DNA::C,
            DNA::G => DNA::G,
            DNA::T => DNA::A,
        },
    }
}

pub fn dnaxor_4(a: DNA, b: DNA) -> (r: DNA)
    ensures
        r == combine(XorOp::CycleCGT, a, b),
{
    match a {
        DNA::A => match b {
            DNA::A => DNA::A,
            DNA::C => DNA::G,
            DNA::G => DNA::T,
            DNA::T => DNA::C,
        },
        DNA::C => match b {
            DNA::A => DNA::C,
            DNA::C => DNA::T,
            DNA::G => DNA::G,
            DNA::T => DNA::A,
        },
        DNA::G => match b {
            DNA::A => DNA::G,
            DNA::C => DNA::A,
            DNA::G => DNA::C,
            DNA::T => DNA::T,
        },
        DNA::T => match b {
            DNA::A => DNA::T,
            DNA::C => DNA::C,
            DNA::G => DNA::A,
            DNA::T => DNA::G,
        },
    }
}

pub fn dnaxor_5(a: DNA, b: DNA) -> (r: DNA)
    ensures
        r == combine(XorOp::CycleCTG, a, b),
{
    match a {
        DNA::A => match b {
            DNA::A => DNA::A,
            DNA::C => DNA::T,
            DNA::G => DNA::C,
            DNA::T => DNA::G,
        },
        DNA::C => match b {
            DNA::A => DNA::C,
            DNA::C => DNA::G,
            DNA::G => DNA::A,
            DNA::T => DNA::T,
        },
        DNA::G => match b {
            DNA::A => DNA::G,
            DNA::C => DNA::C,
            DNA::G => DNA::T,
            DNA::T => DNA::A,
        },
        DNA::T => match b {
            DNA::A => DNA::T,
            DNA::C => DNA::A,
            DNA::G => DNA::G,
            DNA::T => DNA::C,
        },
    }
}

pub fn dnaxor_6(a: DNA, b: DNA) -> (r: DNA)
    ensures
        r == combine(XorOp::SwapCT, a, b),
{
    match a {
        DNA::A => match b {
            DNA::A => DNA::A,
            DNA::C => DNA::T,
            DNA::G => DNA::G,
            DNA::T => DNA::C,
        },
        DNA::C => match b {
            DNA::A => DNA::C,
            DNA::C => DNA::G,
            DNA::G => DNA::T,
            DNA::T => DNA::A,
        },
        DNA::G => match b {
            DNA::A => DNA::G,
            DNA::C => DNA::C,
            DNA::G => DNA::A,
            DNA::T => DNA::T,
        },
        DNA::T => match b {
            DNA::A => DNA::T,
            DNA::C => DNA::A,
            DNA::G => DNA::C,
            DNA::T => DNA::G,
        },
    }
}

impl XorOp {
    /// Applies the operator; the target goes first, since only `Plain` commutes.
    pub fn apply(self, a: DNA, b: DNA) -> (r: DNA)
        ensures
            r == combine(self, a, b),
    {
        match self {
            XorOp::Plain => dnaxor_1(a, b),
            XorOp::SwapGT => dnaxor_2(a, b),
            XorOp::SwapCG => dnaxor_3(a, b),
            XorOp::CycleCGT => dnaxor_4(a, b),
            XorOp::CycleCTG => dnaxor_5(a, b),
            XorOp::SwapCT => dnaxor_6(a, b),
        }
    }
}

/// Picks the combination operator from a 2-symbol selector.
pub fn get_xor(key: &[DNA]) -> (r: XorOp)
    ensures
        r == selected(key@),
{
    if key.len() != 2 {
        return XorOp::SwapCT;
    }
    let (x, y) = (key[0], key[1]);
    if x == y {
        XorOp::Plain
    } else {
        match x {
            DNA::A => XorOp::SwapGT,
            DNA::C => XorOp::SwapCG,
            DNA::G => XorOp::CycleCGT,
            DNA::T => XorOp::CycleCTG,
        }
    }
}

/// Combines two words symbol by symbol with the plain operator.
pub fn word_xor(a: [DNA; 4], b: [DNA; 4]) -> (r: [DNA; 4])
    ensures
        r@ == super::seq_xor(a@, b@),
{
    let mut r = [DNA::A; 4];
    for i in 0..4
        invariant
            forall|k: int| 0 <= k < i ==> r@[k] == sym_xor(a@[k], b@[k]),
    {
        r[i] = dnaxor_1(a[i], b[i]);
    }
    assert(r@ =~= super::seq_xor(a@, b@));
    r
}

/// Every operator undoes itself when applied again with the same right operand.
pub proof fn lemma_combine_self_inverse(op: XorOp, a: DNA, b: DNA)
    ensures
        combine(op, combine(op, a, b), b) == a,
{
}

/// A 2-symbol selector never falls through to `SwapCT`: the 16 pairs are split
/// among the other five operators.
pub proof fn lemma_selector_total(key: Seq<DNA>)
    requires
        key.len() == 2,
    ensures
        selected(key) != XorOp::SwapCT,
{
}

/// The plain operator commutes.
pub proof fn lemma_plain_commutes(a: DNA, b: DNA)
    ensures
        combine(XorOp::Plain, a, b) == combine(XorOp::Plain, b, a),
{
}

} // verus!
