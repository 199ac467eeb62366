//! The size of a circuit and the evaluation domain of its polynomials.

use vstd::prelude::*;
use vstd::string::StringExecFns;

use crate::field::PrimeField;
use crate::text;

verus! {

/// The size of a circuit: it has `n` rows, which is two to the power of `k`.
#[derive(Clone, Copy, Debug, PartialEq, Eq)]
pub struct Params {
    /// The logarithm of the number of rows.
    pub k: u32,
    /// The number of rows.
    pub n: u64,
}

/// The evaluation domain of the polynomials of a circuit.
#[derive(Copy, Debug, PartialEq, Eq)]
pub struct EvaluationDomain<F> {
    /// The logarithm of the size of the domain.
    pub k: u32,
    /// The logarithm of the size of the extended domain.
    pub extended_k: u32,
    /// The generator of the domain.
    pub omega: F,
}

impl<F: Copy> Clone for EvaluationDomain<F> {
    fn clone(&self) -> (r: Self)
        ensures
            r == *self,
    {
        *self
    }
}

/// Represents the minimal parameters that determine an `EvaluationDomain`.
#[derive(Debug)]
pub struct PinnedEvaluationDomain<'a, F> {
    /// The logarithm of the size of the domain.
    pub k: &'a u32,
    /// The logarithm of the size of the extended domain.
    pub extended_k: &'a u32,
    /// The generator of the domain.
    pub omega: &'a F,
}

impl<F> EvaluationDomain<F> {
    /// Obtain a pinned version of this evaluation domain; a structure with the
    /// minimal parameters needed to determine the rest of the evaluation
    /// domain.
    pub fn pinned(&self) -> (pinned: PinnedEvaluationDomain<'_, F>)
        ensures
            *pinned.k == self.k,
            *pinned.extended_k == self.extended_k,
            *pinned.omega == self.omega,
    {
        PinnedEvaluationDomain { k: &self.k, extended_k: &self.extended_k, omega: &self.omega }
    }
}

impl<F: PrimeField> EvaluationDomain<F> {
    /// How the pinned form of this domain is printed.
    pub open spec fn pinned_text(self) -> Seq<char> {
        "PinnedEvaluationDomain { k: "@ + text::decimal(self.k as nat) + ", extended_k: "@
            + text::decimal(self.extended_k as nat) + ", omega: "@ + self.omega.debug_text()
            + " }"@
    }
}

impl<'a, F: PrimeField> PinnedEvaluationDomain<'a, F> {
    /// How this domain is printed.
    pub open spec fn debug_text(self) -> Seq<char> {
        (EvaluationDomain {
            k: *self.k,
            extended_k: *self.extended_k,
            omega: *self.omega,
        }).pinned_text()
    }

    /// Appends how this domain is printed.
    pub fn append_debug(&self, out: &mut String)
        ensures
            final(out)@ == old(out)@ + self.debug_text(),
    {
        out.append("PinnedEvaluationDomain { k: ");
        text::append_usize(out, *self.k as usize);
        out.append(", extended_k: ");
        text::append_usize(out, *self.extended_k as usize);
        out.append(", omega: ");
        out.append(self.omega.debug().as_str());
        out.append(" }");
        assert(out@ =~= old(out)@ + self.debug_text());
    }
}

} // verus!
