use vstd::prelude::*;
use crate::field::Scalar;
use crate::r1cs::{ConstraintSystem, LinearCombination, SynthesisError, VarKind, Variable};

verus! {

/// The linear combination `1 * v`.
pub open spec fn is_single(lc: LinearCombination, v: Variable) -> bool {
    lc.terms.len() == 1 && lc.terms@[0].0@ == 1 && lc.terms@[0].1 == v
}

pub fn single(v: Variable) -> (r: LinearCombination)
    ensures
        is_single(r, v),
{
    LinearCombination { terms: vec![(Scalar::one(), v)] }
}

/// The circuit `a * b = c` with `a`, `b` private and `c` public. The values
/// are absent when the circuit only gives a shape.
pub struct Circuit {
    pub a: Option<Scalar>,
    pub b: Option<Scalar>,
    pub c: Option<Scalar>,
}

impl Circuit {
    /// Allocates `a` and `b` as private variables and `c` as a public one,
    /// and enforces `a * b = c`.
    pub fn generate_constraints(self, cs: &mut ConstraintSystem) -> (r: Result<(), SynthesisError>)
        ensures
            old(cs).assigned && (self.a is None || self.b is None || self.c is None) ==> r == Err::<
                (),
                SynthesisError,
            >(SynthesisError::AssignmentMissing),
            !(old(cs).assigned && (self.a is None || self.b is None || self.c is None)) ==> {
                let np = old(cs).public_values.len();
                let nq = old(cs).private_values.len();
                let keep = |o: Option<Scalar>|
                    if old(cs).assigned {
                        o
                    } else {
                        None::<Scalar>
                    };
                &&& r is Ok
                &&& final(cs).assigned == old(cs).assigned
                &&& final(cs).private_values@ == old(cs).private_values@.push(keep(self.a)).push(
                    keep(self.b),
                )
                &&& final(cs).public_values@ == old(cs).public_values@.push(keep(self.c))
                &&& final(cs).constraints.len() == old(cs).constraints.len() + 1
                &&& final(cs).constraints@.drop_last() == old(cs).constraints@
                &&& is_single(final(cs).constraints@.last().a, Variable::Private(nq))
                &&& is_single(final(cs).constraints@.last().b, Variable::Private((nq + 1) as usize))
                &&& is_single(final(cs).constraints@.last().c, Variable::Public(np))
            },
    {
        let a_var = cs.allocate(VarKind::Private, self.a)?;
        let b_var = cs.allocate(VarKind::Private, self.b)?;
        let c_var = cs.allocate(VarKind::Public, self.c)?;
        let r = cs.enforce(single(a_var), single(b_var), single(c_var));
        assert(final(cs).constraints@.drop_last() =~= old(cs).constraints@) by {
            assert(cs.constraints@.drop_last() =~= old(cs).constraints@);
        }
        r
    }
}

} // verus!
